//! The tools: every tool injects input (or nothing) into the desktop and
//! returns the settled UI state (window list, screenshots of changed windows
//! and accessibility metadata), so the model never has to poll.

use std::collections::HashMap;

use vstd::prelude::*;
use vstd::string::*;

use crate::a11y::A11yNode;
use crate::ipc::{
    Action, DesktopSnapshot, Include, MouseButton, Request, SnapshotRequest, WaitParams,
    WindowInfo,
};
use crate::text::{debug_str, decimal_i32, decimal_u64, same};

verus! {

broadcast use vstd::std_specs::hash::group_hash_axioms;

/// How the desktop can be reached.
#[derive(Debug, Clone)]
pub struct EnvInfo {
    pub wayland_display: String,
    pub mcp_url: String,
    pub monitor_url: String,
}

/// What every tool accepts besides its own parameters.
#[derive(Debug, Clone, Copy, PartialEq, Eq, Structural)]
pub struct ObserveParams {
    /// Max milliseconds to wait for the UI to settle before returning. 0
    /// returns immediately without waiting.
    pub wait_ms: Option<u64>,
    /// Only track changes of this window id (and of newly created windows).
    pub watch_window: Option<u64>,
    /// Attach screenshots of the reported windows (default true).
    pub screenshots: Option<bool>,
    /// Attach accessibility metadata of the reported windows (default true).
    pub accessibility: Option<bool>,
}

impl Default for ObserveParams {
    fn default() -> (r: Self)
        ensures
            r == (ObserveParams {
                wait_ms: None,
                watch_window: None,
                screenshots: None,
                accessibility: None,
            }),
    {
        ObserveParams { wait_ms: None, watch_window: None, screenshots: None, accessibility: None }
    }
}

#[derive(Debug)]
pub struct GetStateParams {
    /// Restrict the detailed report (screenshot + accessibility) to these
    /// window ids. Omit to report all windows.
    pub windows: Option<Vec<u64>>,
    pub observe: ObserveParams,
}

#[derive(Debug)]
pub struct WaitToolParams {
    /// The screen counts as settled once it did not change for this many
    /// milliseconds (default 1500).
    pub settle_ms: Option<u64>,
    pub observe: ObserveParams,
}

#[derive(Debug, Clone, Copy, PartialEq, Eq, Structural)]
pub enum Button {
    Left,
    Middle,
    Right,
}

impl Default for Button {
    fn default() -> (r: Self)
        ensures
            r == Button::Left,
    {
        Button::Left
    }
}

/// The mouse button that a tool means.
pub open spec fn mouse_button(b: Button) -> MouseButton {
    match b {
        Button::Left => MouseButton::Left,
        Button::Middle => MouseButton::Middle,
        Button::Right => MouseButton::Right,
    }
}

impl From<Button> for MouseButton {
    fn from(b: Button) -> (r: Self) {
        match b {
            Button::Left => MouseButton::Left,
            Button::Middle => MouseButton::Middle,
            Button::Right => MouseButton::Right,
        }
    }
}

impl vstd::std_specs::convert::FromSpecImpl<Button> for MouseButton {
    open spec fn obeys_from_spec() -> bool {
        true
    }

    open spec fn from_spec(b: Button) -> MouseButton {
        mouse_button(b)
    }
}

#[derive(Debug)]
pub struct ClickParams<C> {
    /// X coordinate. Window-relative if `window` is set, otherwise global
    /// desktop coordinates. Omit x/y to click at the current pointer
    /// position (or the window center if `window` is set).
    pub x: Option<C>,
    pub y: Option<C>,
    /// Window id; makes x/y relative to that window's top-left corner.
    pub window: Option<u64>,
    pub button: Option<Button>,
    /// Double-click instead of a single click.
    pub double: Option<bool>,
    pub observe: ObserveParams,
}

#[derive(Debug)]
pub struct MouseButtonParams<C> {
    pub x: Option<C>,
    pub y: Option<C>,
    /// Window id; makes x/y relative to that window's top-left corner.
    pub window: Option<u64>,
    pub button: Option<Button>,
    pub observe: ObserveParams,
}

#[derive(Debug)]
pub struct MouseMoveParams<C> {
    pub x: C,
    pub y: C,
    /// Window id; makes x/y relative to that window's top-left corner.
    pub window: Option<u64>,
    pub observe: ObserveParams,
}

#[derive(Debug)]
pub struct ScrollParams<C> {
    /// Vertical scroll steps; positive scrolls down.
    pub dy: Option<C>,
    /// Horizontal scroll steps; positive scrolls right.
    pub dx: Option<C>,
    pub x: Option<C>,
    pub y: Option<C>,
    pub window: Option<u64>,
    pub observe: ObserveParams,
}

#[derive(Debug)]
pub struct TypeTextParams {
    /// Text to type into the focused window. '\n' presses Return, '\t' Tab.
    pub text: String,
    pub observe: ObserveParams,
}

#[derive(Debug)]
pub struct PressKeyParams {
    /// Key or combo: a character ("a"), a key name ("Return", "Escape",
    /// "F5", "Down") or modifiers+key ("ctrl+c", "ctrl+shift+t", "alt+F4").
    pub key: String,
    /// Press the key this many times (default 1).
    pub repeat: Option<u32>,
    pub observe: ObserveParams,
}

#[derive(Debug)]
pub struct WindowParams {
    pub window: u64,
    pub observe: ObserveParams,
}

#[derive(Debug)]
pub struct ResizeParams {
    pub window: u64,
    pub width: i32,
    pub height: i32,
    pub observe: ObserveParams,
}

#[derive(Debug)]
pub struct LaunchParams {
    /// Program to launch. Run with `sh -c` when `args` is omitted, so shell
    /// syntax is allowed.
    pub command: String,
    /// Explicit argument vector; when set, `command` is executed directly.
    pub args: Option<Vec<String>>,
    pub observe: ObserveParams,
}

/// How long interaction tools wait at most, unless told otherwise.
pub const INTERACTION_WAIT_MS: u64 = 3000;

/// How long the observing tool waits at most: it usually observes an idle
/// desktop.
pub const OBSERVATION_WAIT_MS: u64 = 1500;

/// How long a launch waits at most: application startup is slower than a UI
/// transition.
pub const LAUNCH_WAIT_MS: u64 = 8000;

/// How long the tool that waits for the next screen waits at most.
pub const NEXT_SCREEN_WAIT_MS: u64 = 60_000;

/// How long the screen has to stay unchanged for the tool that waits for the
/// next screen.
pub const NEXT_SCREEN_SETTLE_MS: u64 = 1500;

/// How much longer than the compositor itself its caller waits for an answer.
pub const REPLY_MARGIN_MS: u64 = 30_000;

/// A tool call on its way to the compositor.
pub struct ToolCall<C> {
    pub request: Request<C>,
    /// Attach accessibility metadata to the answer.
    pub accessibility: bool,
    /// How long to wait for the answer.
    pub reply_timeout_ms: u64,
}

/// What an optional parameter means.
pub open spec fn or_default<T>(given: Option<T>, default: T) -> T {
    match given {
        Some(value) => value,
        None => default,
    }
}

/// Whether the time to wait for an answer can be counted.
pub open spec fn waitable(observe: ObserveParams, default_wait_ms: u64) -> bool {
    or_default(observe.wait_ms, default_wait_ms) + REPLY_MARGIN_MS <= u64::MAX
}

/// The call that a tool makes.
pub open spec fn tool_call<C>(
    action: Action<C>,
    observe: ObserveParams,
    detail: Include,
    default_wait_ms: u64,
    expect_new_window: bool,
    reply: u64,
) -> ToolCall<C> {
    let wait_ms = or_default(observe.wait_ms, default_wait_ms);
    ToolCall {
        request: Request {
            action,
            wait: WaitParams {
                timeout_ms: wait_ms,
                watch_window: observe.watch_window,
                expect_new_window,
                quiet_time_ms: None,
                require_activity: false,
            },
            snapshot: SnapshotRequest { detail, screenshots: or_default(observe.screenshots, true) },
            reply,
        },
        accessibility: or_default(observe.accessibility, true),
        reply_timeout_ms: (wait_ms + REPLY_MARGIN_MS) as u64,
    }
}

/// The call of a tool that injects input.
pub open spec fn interaction<C>(action: Action<C>, observe: ObserveParams, reply: u64) -> ToolCall<
    C,
> {
    tool_call(action, observe, Include::Changed, INTERACTION_WAIT_MS, false, reply)
}

/// The call of the tool that waits for the next screen.
pub open spec fn next_screen<C>(p: WaitToolParams, reply: u64) -> ToolCall<C> {
    let call = tool_call(
        Action::Observe,
        p.observe,
        Include::Changed,
        NEXT_SCREEN_WAIT_MS,
        false,
        reply,
    );
    ToolCall {
        request: Request {
            wait: WaitParams {
                quiet_time_ms: Some(or_default(p.settle_ms, NEXT_SCREEN_SETTLE_MS)),
                require_activity: true,
                ..call.request.wait
            },
            ..call.request
        },
        ..call
    }
}

/// A program to start.
#[derive(Debug)]
pub struct LaunchPlan {
    pub program: String,
    pub args: Vec<String>,
}

/// Why a tool failed.
#[derive(Debug)]
pub enum ToolError {
    Internal(String),
    InvalidParams(String),
}

/// What became of a request.
pub enum Reply<C> {
    /// It could not be handed to the compositor.
    NotSent,
    /// No answer came in time.
    TimedOut,
    /// The compositor gave up on it.
    Dropped,
    /// The action was refused.
    Refused(String),
    Settled(DesktopSnapshot<C>),
}

/// The tools of a desktop.
#[derive(Clone)]
pub struct DesktopMcp {
    pub env: EnvInfo,
}

fn given_or<T: Copy>(given: Option<T>, default: T) -> (r: T)
    ensures
        r == or_default(given, default),
{
    match given {
        Some(value) => value,
        None => default,
    }
}

fn button_of(button: Option<Button>) -> (r: MouseButton)
    ensures
        r == mouse_button(or_default(button, Button::Left)),
{
    MouseButton::from(given_or(button, Button::Left))
}

impl DesktopMcp {
    pub fn new(env: EnvInfo) -> (r: Self)
        ensures
            r.env == env,
    {
        DesktopMcp { env }
    }

    /// Makes the call of a tool.
    pub fn perform<C>(
        &self,
        action: Action<C>,
        observe: &ObserveParams,
        detail: Include,
        default_wait_ms: u64,
        expect_new_window: bool,
        reply: u64,
    ) -> (r: ToolCall<C>)
        requires
            waitable(*observe, default_wait_ms),
        ensures
            r == tool_call(action, *observe, detail, default_wait_ms, expect_new_window, reply),
    {
        let wait_ms = given_or(observe.wait_ms, default_wait_ms);
        ToolCall {
            request: Request {
                action,
                wait: WaitParams {
                    timeout_ms: wait_ms,
                    watch_window: observe.watch_window,
                    expect_new_window,
                    quiet_time_ms: None,
                    require_activity: false,
                },
                snapshot: SnapshotRequest {
                    detail,
                    screenshots: given_or(observe.screenshots, true),
                },
                reply,
            },
            accessibility: given_or(observe.accessibility, true),
            reply_timeout_ms: wait_ms + REPLY_MARGIN_MS,
        }
    }

    fn interact<C>(&self, action: Action<C>, observe: &ObserveParams, reply: u64) -> (r: ToolCall<
        C,
    >)
        requires
            waitable(*observe, INTERACTION_WAIT_MS),
        ensures
            r == interaction(action, *observe, reply),
    {
        self.perform(action, observe, Include::Changed, INTERACTION_WAIT_MS, false, reply)
    }

    /// Observe the desktop.
    pub fn get_state<C>(&self, p: GetStateParams, reply: u64) -> (r: ToolCall<C>)
        requires
            waitable(p.observe, OBSERVATION_WAIT_MS),
        ensures
            r == tool_call::<C>(
                Action::Observe,
                p.observe,
                match p.windows {
                    Some(ids) => Include::Windows(ids),
                    None => Include::All,
                },
                OBSERVATION_WAIT_MS,
                false,
                reply,
            ),
    {
        let detail = match p.windows {
            Some(ids) => Include::Windows(ids),
            None => Include::All,
        };
        self.perform(Action::Observe, &p.observe, detail, OBSERVATION_WAIT_MS, false, reply)
    }

    /// Wait for the next screen: at least one update, and then a period
    /// without any.
    pub fn wait<C>(&self, p: WaitToolParams, reply: u64) -> (r: ToolCall<C>)
        requires
            waitable(p.observe, NEXT_SCREEN_WAIT_MS),
        ensures
            r == next_screen::<C>(p, reply),
    {
        let mut call = self.perform(
            Action::Observe,
            &p.observe,
            Include::Changed,
            NEXT_SCREEN_WAIT_MS,
            false,
            reply,
        );
        call.request.wait.quiet_time_ms = Some(given_or(p.settle_ms, NEXT_SCREEN_SETTLE_MS));
        call.request.wait.require_activity = true;
        call
    }

    pub fn click<C>(&self, p: ClickParams<C>, reply: u64) -> (r: ToolCall<C>)
        requires
            waitable(p.observe, INTERACTION_WAIT_MS),
        ensures
            r == interaction(
                Action::Click {
                    button: mouse_button(or_default(p.button, Button::Left)),
                    x: p.x,
                    y: p.y,
                    window: p.window,
                    double: or_default(p.double, false),
                },
                p.observe,
                reply,
            ),
    {
        let action = Action::Click {
            button: button_of(p.button),
            x: p.x,
            y: p.y,
            window: p.window,
            double: given_or(p.double, false),
        };
        self.interact(action, &p.observe, reply)
    }

    /// Press and hold a mouse button.
    pub fn mouse_down<C>(&self, p: MouseButtonParams<C>, reply: u64) -> (r: ToolCall<C>)
        requires
            waitable(p.observe, INTERACTION_WAIT_MS),
        ensures
            r == interaction(
                Action::MouseDown {
                    button: mouse_button(or_default(p.button, Button::Left)),
                    x: p.x,
                    y: p.y,
                    window: p.window,
                },
                p.observe,
                reply,
            ),
    {
        let action = Action::MouseDown {
            button: button_of(p.button),
            x: p.x,
            y: p.y,
            window: p.window,
        };
        self.interact(action, &p.observe, reply)
    }

    /// Release a mouse button.
    pub fn mouse_up<C>(&self, p: MouseButtonParams<C>, reply: u64) -> (r: ToolCall<C>)
        requires
            waitable(p.observe, INTERACTION_WAIT_MS),
        ensures
            r == interaction(
                Action::MouseUp {
                    button: mouse_button(or_default(p.button, Button::Left)),
                    x: p.x,
                    y: p.y,
                    window: p.window,
                },
                p.observe,
                reply,
            ),
    {
        let action = Action::MouseUp {
            button: button_of(p.button),
            x: p.x,
            y: p.y,
            window: p.window,
        };
        self.interact(action, &p.observe, reply)
    }

    pub fn mouse_move<C>(&self, p: MouseMoveParams<C>, reply: u64) -> (r: ToolCall<C>)
        requires
            waitable(p.observe, INTERACTION_WAIT_MS),
        ensures
            r == interaction(
                Action::MouseMove { x: p.x, y: p.y, window: p.window },
                p.observe,
                reply,
            ),
    {
        self.interact(Action::MouseMove { x: p.x, y: p.y, window: p.window }, &p.observe, reply)
    }

    /// Scroll with the mouse wheel; `zero` is the distance of an axis that is
    /// not given.
    pub fn scroll<C: Copy>(&self, p: ScrollParams<C>, zero: C, reply: u64) -> (r: ToolCall<C>)
        requires
            waitable(p.observe, INTERACTION_WAIT_MS),
        ensures
            r == interaction(
                Action::Scroll {
                    dx: or_default(p.dx, zero),
                    dy: or_default(p.dy, zero),
                    x: p.x,
                    y: p.y,
                    window: p.window,
                },
                p.observe,
                reply,
            ),
    {
        let action = Action::Scroll {
            dx: given_or(p.dx, zero),
            dy: given_or(p.dy, zero),
            x: p.x,
            y: p.y,
            window: p.window,
        };
        self.interact(action, &p.observe, reply)
    }

    pub fn type_text<C>(&self, p: TypeTextParams, reply: u64) -> (r: ToolCall<C>)
        requires
            waitable(p.observe, INTERACTION_WAIT_MS),
        ensures
            r == interaction::<C>(Action::TypeText { text: p.text }, p.observe, reply),
    {
        self.interact(Action::TypeText { text: p.text }, &p.observe, reply)
    }

    pub fn press_key<C>(&self, p: PressKeyParams, reply: u64) -> (r: ToolCall<C>)
        requires
            waitable(p.observe, INTERACTION_WAIT_MS),
        ensures
            r == interaction::<C>(
                Action::Key { combo: p.key, repeat: or_default(p.repeat, 1) },
                p.observe,
                reply,
            ),
    {
        let action = Action::Key { combo: p.key, repeat: given_or(p.repeat, 1) };
        self.interact(action, &p.observe, reply)
    }

    /// Give keyboard focus to a window and raise it.
    pub fn focus_window<C>(&self, p: WindowParams, reply: u64) -> (r: ToolCall<C>)
        requires
            waitable(p.observe, INTERACTION_WAIT_MS),
        ensures
            r == interaction::<C>(Action::FocusWindow { id: p.window }, p.observe, reply),
    {
        self.interact(Action::FocusWindow { id: p.window }, &p.observe, reply)
    }

    /// Ask a window to close.
    pub fn close_window<C>(&self, p: WindowParams, reply: u64) -> (r: ToolCall<C>)
        requires
            waitable(p.observe, INTERACTION_WAIT_MS),
        ensures
            r == interaction::<C>(Action::CloseWindow { id: p.window }, p.observe, reply),
    {
        self.interact(Action::CloseWindow { id: p.window }, &p.observe, reply)
    }

    /// Ask a window to resize.
    pub fn resize_window<C>(&self, p: ResizeParams, reply: u64) -> (r: ToolCall<C>)
        requires
            waitable(p.observe, INTERACTION_WAIT_MS),
        ensures
            r == interaction::<C>(
                Action::ResizeWindow { id: p.window, width: p.width, height: p.height },
                p.observe,
                reply,
            ),
    {
        let action = Action::ResizeWindow { id: p.window, width: p.width, height: p.height };
        self.interact(action, &p.observe, reply)
    }

    /// What to start for a launch: the program itself if its arguments are
    /// given, else a shell that runs the command.
    pub fn launch_app(p: LaunchParams) -> (r: LaunchPlan)
        ensures
            match p.args {
                Some(args) => r.program == p.command && r.args == args,
                None => {
                    &&& r.program@ == "sh"@
                    &&& crate::text::texts(r.args@) == seq!["-c"@, p.command@]
                },
            },
    {
        match p.args {
            Some(args) => LaunchPlan { program: p.command, args },
            None => {
                let mut args: Vec<String> = Vec::new();
                args.push("-c".to_owned());
                args.push(p.command);
                assert(crate::text::texts(args@) =~= seq!["-c"@, p.command@]);
                LaunchPlan { program: "sh".to_owned(), args }
            },
        }
    }

    /// The error of a program that could not be started.
    pub fn launch_failure(reason: &str) -> (r: ToolError)
        ensures
            r is InvalidParams,
            r->InvalidParams_0@ == "failed to launch: "@ + reason@,
    {
        ToolError::InvalidParams("failed to launch: ".to_owned().concat(reason))
    }

    /// Waits for the window of a program that was started.
    pub fn perform_launch<C>(&self, observe: &ObserveParams, reply: u64) -> (r: ToolCall<C>)
        requires
            waitable(*observe, LAUNCH_WAIT_MS),
        ensures
            r == tool_call::<C>(
                Action::Observe,
                *observe,
                Include::Changed,
                LAUNCH_WAIT_MS,
                true,
                reply,
            ),
    {
        self.perform(Action::Observe, observe, Include::Changed, LAUNCH_WAIT_MS, true, reply)
    }

    /// The snapshot to report, or the error.
    pub fn receive<C>(reply: Reply<C>) -> (r: Result<DesktopSnapshot<C>, ToolError>)
        ensures
            match reply {
                Reply::NotSent => r matches Err(ToolError::Internal(text)) && text@
                    == "compositor is gone"@,
                Reply::TimedOut => r matches Err(ToolError::Internal(text)) && text@
                    == "timed out waiting for the compositor"@,
                Reply::Dropped => r matches Err(ToolError::Internal(text)) && text@
                    == "compositor dropped the request"@,
                Reply::Refused(text) => r == Err::<DesktopSnapshot<C>, ToolError>(
                    ToolError::InvalidParams(text),
                ),
                Reply::Settled(snapshot) => r == Ok::<DesktopSnapshot<C>, ToolError>(snapshot),
            },
    {
        match reply {
            Reply::NotSent => Err(ToolError::Internal("compositor is gone".to_owned())),
            Reply::TimedOut => Err(
                ToolError::Internal("timed out waiting for the compositor".to_owned()),
            ),
            Reply::Dropped => Err(ToolError::Internal("compositor dropped the request".to_owned())),
            Reply::Refused(text) => Err(ToolError::InvalidParams(text)),
            Reply::Settled(snapshot) => Ok(snapshot),
        }
    }
}

/// The accessible trees that go with a window, as positions among the trees of
/// its process.
#[derive(Debug)]
pub enum Attachment {
    Nothing,
    One(usize),
    Several(Vec<usize>),
}

/// The mathematical content of an [`Attachment`].
pub enum AttachmentView {
    Nothing,
    One(int),
    Several(Seq<int>),
}

impl View for Attachment {
    type V = AttachmentView;

    open spec fn view(&self) -> AttachmentView {
        match *self {
            Attachment::Nothing => AttachmentView::Nothing,
            Attachment::One(i) => AttachmentView::One(i as int),
            Attachment::Several(v) => AttachmentView::Several(v@.map_values(|i: usize| i as int)),
        }
    }
}

/// Whether a tree has this name.
pub open spec fn is_named(tree: A11yNode, title: Seq<char>) -> bool {
    crate::a11y::text_view(tree.name) == Some(title)
}

/// The positions of the trees of this name, in their order.
pub open spec fn named(trees: Seq<A11yNode>, title: Seq<char>) -> Seq<int>
    decreases trees.len(),
{
    if trees.len() == 0 {
        Seq::empty()
    } else {
        let before = named(trees.drop_last(), title);
        if is_named(trees.last(), title) {
            before.push(trees.len() - 1)
        } else {
            before
        }
    }
}

/// Which trees of a process go with a window of this title: the one that has
/// the title for a name, else the only one, else all that have, else all.
pub open spec fn choice(trees: Seq<A11yNode>, title: Seq<char>) -> AttachmentView {
    let matching = named(trees, title);
    if matching.len() == 1 {
        AttachmentView::One(matching[0])
    } else if trees.len() == 1 {
        AttachmentView::One(0)
    } else if matching.len() > 0 {
        AttachmentView::Several(matching)
    } else if trees.len() > 0 {
        AttachmentView::Several(Seq::new(trees.len(), |i: int| i))
    } else {
        AttachmentView::Nothing
    }
}

/// Which trees go with a window: none unless it is reported in detail and its
/// process is known. Whether it has a screenshot does not matter.
pub open spec fn attachment(info: WindowInfo, trees: Map<i32, Vec<A11yNode>>) -> AttachmentView {
    match info.pid {
        Some(pid) => if info.detailed && trees.contains_key(pid) {
            choice(trees[pid]@, info.title@)
        } else {
            AttachmentView::Nothing
        },
        None => AttachmentView::Nothing,
    }
}

fn positions(v: Vec<usize>) -> (r: Attachment)
    ensures
        r@ == AttachmentView::Several(v@.map_values(|i: usize| i as int)),
{
    Attachment::Several(v)
}

fn choose_trees(trees: &Vec<A11yNode>, title: &str) -> (r: Attachment)
    ensures
        r@ == choice(trees@, title@),
{
    let n = trees.len();
    let mut matching: Vec<usize> = Vec::new();
    assert(matching@.map_values(|i: usize| i as int) =~= named(trees@.take(0), title@));
    for i in 0..n
        invariant
            n == trees@.len(),
            matching@.map_values(|i: usize| i as int) == named(trees@.take(i as int), title@),
    {
        assert(trees@.take(i + 1).drop_last() == trees@.take(i as int));
        let hit = match &trees[i].name {
            Some(name) => same(name, title),
            None => false,
        };
        if hit {
            let ghost before = matching@;
            matching.push(i);
            assert(matching@.map_values(|i: usize| i as int) =~= before.map_values(
                |i: usize| i as int,
            ).push(i as int));
        }
    }
    assert(trees@.take(trees@.len() as int) == trees@);
    let ghost found = named(trees@, title@);
    assert(matching@.len() == matching@.map_values(|i: usize| i as int).len());
    if matching.len() == 1 {
        assert(found[0] == matching@[0]);
        Attachment::One(matching[0])
    } else if n == 1 {
        Attachment::One(0)
    } else if matching.len() > 0 {
        positions(matching)
    } else if n > 0 {
        let mut all: Vec<usize> = Vec::new();
        for i in 0..n
            invariant
                all@.len() == i,
                forall|j: int| 0 <= j < i ==> all@[j] == j,
        {
            all.push(i);
        }
        assert(all@.map_values(|i: usize| i as int) =~= Seq::new(trees@.len(), |i: int| i));
        positions(all)
    } else {
        Attachment::Nothing
    }
}

/// Which accessible trees go with a window.
pub fn attach(info: &WindowInfo, trees: &HashMap<i32, Vec<A11yNode>>) -> (r: Attachment)
    ensures
        r@ == attachment(*info, trees@),
        info.detailed && info.pid is Some && trees@.contains_key(info.pid->Some_0) ==> r@ == choice(
            trees@[info.pid->Some_0]@,
            info.title@,
        ),
{
    if !info.detailed {
        return Attachment::Nothing;
    }
    match info.pid {
        Some(pid) => match trees.get(&pid) {
            Some(list) => choose_trees(list, &info.title),
            None => Attachment::Nothing,
        },
        None => Attachment::Nothing,
    }
}

/// A digit of base64: the letters in upper and lower case, the decimal digits,
/// plus and slash.
pub open spec fn base64_digit(n: int) -> char {
    if n < 26 {
        ('A' as int + n) as char
    } else if n < 52 {
        ('a' as int + n - 26) as char
    } else if n < 62 {
        ('0' as int + n - 52) as char
    } else if n == 62 {
        '+'
    } else {
        '/'
    }
}

/// Base64 with padding: three bytes make four digits, and missing bytes of the
/// last group make equals signs.
pub open spec fn base64(bytes: Seq<u8>) -> Seq<char>
    decreases bytes.len(),
{
    if bytes.len() == 0 {
        Seq::empty()
    } else {
        let b = bytes[0] as int;
        let c = if bytes.len() > 1 { bytes[1] as int } else { 0 };
        let d = if bytes.len() > 2 { bytes[2] as int } else { 0 };
        let group = seq![
            base64_digit(b / 4),
            base64_digit((b % 4) * 16 + c / 16),
            if bytes.len() > 1 { base64_digit((c % 16) * 4 + d / 64) } else { '=' },
            if bytes.len() > 2 { base64_digit(d % 64) } else { '=' },
        ];
        if bytes.len() <= 3 {
            group
        } else {
            group + base64(bytes.skip(3))
        }
    }
}

/// Whether the base64 text of this many bytes can be held in memory.
pub open spec fn encodable(len: nat) -> bool {
    (len + 2) / 3 * 4 <= isize::MAX
}

/// Calls `encode` of the engine `base64::engine::general_purpose::STANDARD`:
/// the result is the base64 text with padding. A text that does not fit into
/// memory is ruled out.
#[verifier::external_body]
fn encode_base64(bytes: &Vec<u8>) -> (r: String)
    requires
        encodable(bytes@.len()),
    ensures
        r@ == base64(bytes@),
{
    base64::Engine::encode(&base64::engine::general_purpose::STANDARD, bytes)
}

/// A part of the answer of a tool.
#[derive(Debug)]
pub enum Content {
    Text(String),
    /// A PNG image in base64.
    Image(String),
}

/// The mathematical content of a [`Content`].
pub enum ContentView {
    Text(Seq<char>),
    Image(Seq<char>),
}

impl View for Content {
    type V = ContentView;

    open spec fn view(&self) -> ContentView {
        match *self {
            Content::Text(text) => ContentView::Text(text@),
            Content::Image(data) => ContentView::Image(data@),
        }
    }
}

pub open spec fn content_views(contents: Seq<Content>) -> Seq<ContentView> {
    contents.map_values(|c: Content| c@)
}

/// The text above a screenshot.
pub open spec fn caption(info: WindowInfo) -> Seq<char> {
    let id = crate::text::decimal(info.id as nat);
    "Screenshot of window "@ + id + " ("@ + crate::text::str_debug(info.title@) + "), "@
        + crate::text::decimal_int(info.width as int) + "x"@ + crate::text::decimal_int(
        info.height as int,
    ) + " px. Coordinates inside this image are window-relative coordinates for window "@ + id + "."@
}

/// The screenshots of windows, each behind its caption.
pub open spec fn screenshots(windows: Seq<WindowInfo>) -> Seq<ContentView>
    decreases windows.len(),
{
    if windows.len() == 0 {
        Seq::empty()
    } else {
        let before = screenshots(windows.drop_last());
        match windows.last().screenshot_png {
            Some(png) => before.push(ContentView::Text(caption(windows.last()))).push(
                ContentView::Image(base64(png@)),
            ),
            None => before,
        }
    }
}

fn caption_text(info: &WindowInfo) -> (r: String)
    ensures
        r@ == caption(*info),
{
    let id = decimal_u64(info.id);
    "Screenshot of window ".to_owned().concat(&id).concat(" (").concat(
        &debug_str(&info.title),
    ).concat("), ").concat(&decimal_i32(info.width)).concat("x").concat(
        &decimal_i32(info.height),
    ).concat(
        " px. Coordinates inside this image are window-relative coordinates for window ",
    ).concat(&id).concat(".")
}

/// The answer of a tool: the state of the desktop as text, and then the
/// screenshots.
pub fn render_result(state: String, windows: &Vec<WindowInfo>) -> (r: Vec<Content>)
    requires
        forall|i: int|
            0 <= i < windows@.len() ==> ((#[trigger] windows@[i]).screenshot_png matches Some(png)
                ==> encodable(png@.len())),
    ensures
        content_views(r@) == seq![ContentView::Text(state@)] + screenshots(windows@),
{
    let mut contents: Vec<Content> = Vec::new();
    contents.push(Content::Text(state));
    assert(content_views(contents@) =~= seq![ContentView::Text(state@)] + screenshots(
        windows@.take(0),
    ));
    for i in 0..windows.len()
        invariant
            content_views(contents@) == seq![ContentView::Text(state@)] + screenshots(
                windows@.take(i as int),
            ),
            forall|i: int|
                0 <= i < windows@.len() ==> ((#[trigger] windows@[i]).screenshot_png matches Some(
                    png,
                ) ==> encodable(png@.len())),
    {
        assert(windows@.take(i + 1).drop_last() == windows@.take(i as int));
        let info = &windows[i];
        if let Some(png) = &info.screenshot_png {
            let ghost before = contents@;
            let text = Content::Text(caption_text(info));
            let image = Content::Image(encode_base64(png));
            contents.push(text);
            contents.push(image);
            assert(content_views(contents@) =~= content_views(before).push(text@).push(image@));
        }
        assert(content_views(contents@) =~= seq![ContentView::Text(state@)] + screenshots(
            windows@.take(i + 1),
        ));
    }
    assert(windows@.take(windows@.len() as int) == windows@);
    contents
}

/// What the model is told about the tools.
pub open spec fn instructions(env: EnvInfo) -> Seq<char> {
    "Virtual Wayland desktop ("@ + env.wayland_display@
        + "). Every tool injects input and then waits until the UI settles (two quiet ping rounds or wait_ms timeout), returning the window list plus screenshots and accessibility metadata of changed windows — no separate screenshot polling is needed. Coordinates: pass `window` to use window-relative coordinates matching that window's screenshot; without it, coordinates are global desktop pixels. Start apps with launch_app. A human can watch the desktop read-only at "@
        + env.monitor_url@ + "."@
}

impl DesktopMcp {
    /// What the model is told about the tools.
    pub fn get_info(&self) -> (r: String)
        ensures
            r@ == instructions(self.env),
    {
        "Virtual Wayland desktop (".to_owned().concat(&self.env.wayland_display).concat(
            "). Every tool injects input and then waits until the UI settles (two quiet ping rounds or wait_ms timeout), returning the window list plus screenshots and accessibility metadata of changed windows — no separate screenshot polling is needed. Coordinates: pass `window` to use window-relative coordinates matching that window's screenshot; without it, coordinates are global desktop pixels. Start apps with launch_app. A human can watch the desktop read-only at ",
        ).concat(&self.env.monitor_url).concat(".")
    }
}

proof fn lemma_named(trees: Seq<A11yNode>, title: Seq<char>)
    ensures
        named(trees, title).len() <= trees.len(),
        forall|k: int|
            0 <= k < named(trees, title).len() ==> 0 <= #[trigger] named(trees, title)[k]
                < trees.len() && is_named(trees[named(trees, title)[k]], title),
    decreases trees.len(),
{
    if trees.len() > 0 {
        lemma_named(trees.drop_last(), title);
        let before = named(trees.drop_last(), title);
        let all = named(trees, title);
        assert forall|k: int| 0 <= k < all.len() implies 0 <= #[trigger] all[k] < trees.len()
            && is_named(trees[all[k]], title) by {
            if k < before.len() {
                assert(all[k] == before[k]);
                assert(trees.drop_last()[before[k]] == trees[before[k]]);
            }
        }
    }
}

/// Law: what is attached to a window are trees of its process, and several
/// only if there is not one that decides.
pub proof fn law_attached_trees_exist(trees: Seq<A11yNode>, title: Seq<char>)
    ensures
        match choice(trees, title) {
            AttachmentView::Nothing => trees.len() == 0,
            AttachmentView::One(i) => 0 <= i < trees.len() && (is_named(trees[i], title)
                || trees.len() == 1),
            AttachmentView::Several(list) => {
                &&& list.len() >= 2
                &&& forall|k: int| 0 <= k < list.len() ==> 0 <= #[trigger] list[k] < trees.len()
            },
        },
{
    lemma_named(trees, title);
}

/// Law: base64 makes four characters of every three bytes begun.
pub proof fn law_base64_length(bytes: Seq<u8>)
    ensures
        base64(bytes).len() == (bytes.len() + 2) / 3 * 4,
    decreases bytes.len(),
{
    if bytes.len() > 3 {
        law_base64_length(bytes.skip(3));
    }
}

/// Law: a tool that is told not to wait asks for an immediate answer.
pub proof fn law_no_wait_means_an_immediate_answer<C>(
    action: Action<C>,
    observe: ObserveParams,
    detail: Include,
    default_wait_ms: u64,
    expect_new_window: bool,
    reply: u64,
)
    requires
        observe.wait_ms == Some(0u64),
    ensures
        tool_call(
            action,
            observe,
            detail,
            default_wait_ms,
            expect_new_window,
            reply,
        ).request.wait.timeout_ms == 0,
{
}

/// Law: switching screenshots off does not switch accessibility metadata off:
/// a window reported in detail gets the same trees with and without one.
pub proof fn law_trees_do_not_need_screenshots(
    info: WindowInfo,
    trees: Map<i32, Vec<A11yNode>>,
    shot: Option<Vec<u8>>,
)
    ensures
        attachment(info, trees) == attachment(WindowInfo { screenshot_png: shot, ..info }, trees),
        info.detailed && info.pid is Some && trees.contains_key(info.pid->Some_0)
            && trees[info.pid->Some_0]@.len() > 0 ==> !(attachment(info, trees) is Nothing),
{
}

/// Law: tools wait 3 seconds by default, observing 1.5 and launching 8; the tool
/// that waits for the next screen waits a minute and takes 1.5 seconds without
/// an update for settled. The caller waits half a minute longer.
pub proof fn law_tools_wait_this_long_by_default()
    ensures
        INTERACTION_WAIT_MS == 3_000,
        OBSERVATION_WAIT_MS == 1_500,
        LAUNCH_WAIT_MS == 8_000,
        NEXT_SCREEN_WAIT_MS == 60_000,
        NEXT_SCREEN_SETTLE_MS == 1_500,
        REPLY_MARGIN_MS == 30_000,
{
}

/// Law: a tool call carries what it was given and the defaults for what was left
/// out: screenshots and accessibility are on unless switched off.
pub proof fn law_tool_calls_carry_their_parameters<C>(
    action: Action<C>,
    observe: ObserveParams,
    detail: Include,
    default_wait_ms: u64,
    expect_new_window: bool,
    reply: u64,
)
    requires
        waitable(observe, default_wait_ms),
    ensures
        ({
            let call = tool_call(
                action,
                observe,
                detail,
                default_wait_ms,
                expect_new_window,
                reply,
            );
            let wait = call.request.wait;
            &&& call.request.action == action
            &&& observe.wait_ms is Some ==> wait.timeout_ms == observe.wait_ms->Some_0
            &&& observe.wait_ms is None ==> wait.timeout_ms == default_wait_ms
            &&& wait.watch_window == observe.watch_window
            &&& wait.expect_new_window == expect_new_window
            &&& wait.quiet_time_ms is None
            &&& !wait.require_activity
            &&& call.request.snapshot.detail == detail
            &&& call.request.snapshot.screenshots <==> observe.screenshots != Some(false)
            &&& call.request.reply == reply
            &&& call.accessibility <==> observe.accessibility != Some(false)
            &&& call.reply_timeout_ms == wait.timeout_ms + 30_000
        }),
{
}

/// Law: a tool that injects input waits 3 seconds by default, for no window in
/// particular, and reports what changed.
pub proof fn law_interactions_report_what_changed<C>(
    action: Action<C>,
    observe: ObserveParams,
    reply: u64,
)
    ensures
        interaction(action, observe, reply) == tool_call(
            action,
            observe,
            Include::Changed,
            3_000,
            false,
            reply,
        ),
{
}

/// Law: the tool that waits for the next screen injects nothing, waits for an
/// update and for the silence after it, for a minute by default, and reports
/// what changed.
pub proof fn law_waiting_is_for_the_next_screen<C>(p: WaitToolParams, reply: u64)
    requires
        waitable(p.observe, 60_000),
    ensures
        ({
            let call = next_screen::<C>(p, reply);
            let plain = tool_call::<C>(
                Action::Observe,
                p.observe,
                Include::Changed,
                60_000,
                false,
                reply,
            );
            let wait = call.request.wait;
            &&& p.settle_ms is Some ==> wait.quiet_time_ms == Some(p.settle_ms->Some_0)
            &&& p.settle_ms is None ==> wait.quiet_time_ms == Some(1_500u64)
            &&& wait.require_activity
            &&& wait.timeout_ms == plain.request.wait.timeout_ms
            &&& wait.watch_window == p.observe.watch_window
            &&& !wait.expect_new_window
            &&& call.request.action is Observe
            &&& call.request.snapshot.detail is Changed
            &&& call.request.snapshot.screenshots == plain.request.snapshot.screenshots
            &&& call.request.reply == reply
            &&& call.accessibility == plain.accessibility
            &&& call.reply_timeout_ms == plain.reply_timeout_ms
        }),
{
}

/// Law: a parameter that is given counts, and one that is left out means its
/// default; buttons mean the buttons of the same name. A time to wait is
/// accepted exactly if half a minute more can be counted.
pub proof fn law_given_parameters_count<T>(
    given: T,
    default: T,
    observe: ObserveParams,
    default_wait_ms: u64,
)
    ensures
        or_default(Some(given), default) == given,
        or_default(None, default) == default,
        mouse_button(Button::Left) is Left,
        mouse_button(Button::Middle) is Middle,
        mouse_button(Button::Right) is Right,
        observe.wait_ms is Some ==> (waitable(observe, default_wait_ms) <==> observe.wait_ms->Some_0
            <= 0xffff_ffff_ffff_ffff - 30_000),
        observe.wait_ms is None ==> (waitable(observe, default_wait_ms) <==> default_wait_ms
            <= 0xffff_ffff_ffff_ffff - 30_000),
{
}

proof fn lemma_named_is_sorted(trees: Seq<A11yNode>, title: Seq<char>)
    ensures
        forall|a: int, b: int|
            0 <= a < b < named(trees, title).len() ==> named(trees, title)[a] < named(
                trees,
                title,
            )[b],
        forall|i: int|
            0 <= i < trees.len() && (trees[i].name is Some && trees[i].name->Some_0@ == title)
                ==> #[trigger] named(trees, title).contains(i),
    decreases trees.len(),
{
    if trees.len() > 0 {
        let rest = trees.drop_last();
        lemma_named_is_sorted(rest, title);
        lemma_named(rest, title);
        let before = named(rest, title);
        let all = named(trees, title);
        assert forall|i: int|
            0 <= i < trees.len() && (trees[i].name is Some && trees[i].name->Some_0@
                == title) implies #[trigger] all.contains(i) by {
            if i < rest.len() {
                assert(rest[i] == trees[i]);
                assert(before.contains(i));
                let k = before.index_of(i);
                assert(all[k] == i);
            } else {
                assert(all[all.len() - 1] == i);
            }
        }
    }
}

/// Law: the tree that has the title of the window for its name goes with it; so
/// does the only tree of the process. Where several have that name these go
/// with it, and where none has, all do, each once and in their order. A process
/// without trees has none.
pub proof fn law_trees_are_chosen_by_name(trees: Seq<A11yNode>, title: Seq<char>, i: int)
    ensures
        ({
            let chosen = choice(trees, title);
            let only = 0 <= i < trees.len() && trees[i].name is Some && trees[i].name->Some_0@
                == title && forall|j: int|
                0 <= j < trees.len() && (#[trigger] trees[j]).name is Some
                    && trees[j].name->Some_0@ == title ==> j == i;
            let nobody = forall|j: int|
                0 <= j < trees.len() ==> !((#[trigger] trees[j]).name is Some
                    && trees[j].name->Some_0@ == title);
            &&& only ==> chosen == AttachmentView::One(i)
            &&& trees.len() == 0 ==> chosen is Nothing
            &&& trees.len() == 1 ==> chosen == AttachmentView::One(0)
            &&& trees.len() >= 2 && nobody ==> {
                &&& chosen is Several
                &&& chosen->Several_0.len() == trees.len()
                &&& 0 <= i < trees.len() ==> chosen->Several_0[i] == i
            }
            &&& trees.len() >= 2 && chosen is Several && !nobody ==> {
                &&& forall|a: int, b: int|
                    0 <= a < b < chosen->Several_0.len() ==> chosen->Several_0[a]
                        < chosen->Several_0[b]
                &&& chosen->Several_0.contains(i) <==> 0 <= i < trees.len()
                    && trees[i].name is Some && trees[i].name->Some_0@ == title
            }
            &&& chosen matches AttachmentView::One(k) ==> trees.len() == 1 || (0 <= k < trees.len()
                && trees[k].name is Some && trees[k].name->Some_0@ == title && forall|j: int|
                0 <= j < trees.len() && (#[trigger] trees[j]).name is Some
                    && trees[j].name->Some_0@ == title ==> j == k)
            &&& chosen is Nothing ==> trees.len() == 0
        }),
{
    lemma_named(trees, title);
    lemma_named_is_sorted(trees, title);
    let list = named(trees, title);
    assert forall|k: int| 0 <= k < list.len() implies 0 <= #[trigger] list[k] < trees.len()
        && trees[list[k]].name is Some && trees[list[k]].name->Some_0@ == title by {
        assert(is_named(trees[list[k]], title));
    }
    assert forall|j: int|
        0 <= j < trees.len() && (#[trigger] trees[j]).name is Some && trees[j].name->Some_0@
            == title implies list.contains(j) by {
        assert(list.contains(j));
    }
    if 0 <= i < trees.len() && trees[i].name is Some && trees[i].name->Some_0@ == title {
        assert(list.contains(i));
        let k = list.index_of(i);
        if forall|j: int|
            0 <= j < trees.len() && (#[trigger] trees[j]).name is Some && trees[j].name->Some_0@
                == title ==> j == i {
            if list.len() > 1 {
                assert(trees[list[0]].name is Some && trees[list[1]].name is Some);
                assert(list[0] < list[1]);
                assert(false);
            }
        }
    }
    if list.len() > 0 {
        assert(trees[list[0]].name is Some);
    }
    if list.contains(i) {
        let k = list.index_of(i);
        assert(trees[list[k]].name is Some);
    }
    if list.len() == 1 {
        assert forall|j: int|
            0 <= j < trees.len() && (#[trigger] trees[j]).name is Some && trees[j].name->Some_0@
                == title implies j == list[0] by {
            assert(list.contains(j));
            let k = list.index_of(j);
        }
    }
}

/// Law: a window gets trees exactly if it is reported in detail and its process
/// has trees; it then gets those that go with its title.
pub proof fn law_detailed_windows_get_the_trees_of_their_process(
    info: WindowInfo,
    trees: Map<i32, Vec<A11yNode>>,
    pid: i32,
)
    ensures
        info.pid == Some(pid) && info.detailed && trees.contains_key(pid) ==> attachment(info, trees)
            == choice(trees[pid]@, info.title@),
        info.pid == Some(pid) && !trees.contains_key(pid) ==> attachment(info, trees) is Nothing,
        info.pid is None || !info.detailed ==> attachment(info, trees) is Nothing,
{
}

/// Law: the views of attachments and of contents are what they stand for.
pub proof fn law_contents_are_shown_as_they_are(
    contents: Seq<Content>,
    attached: Attachment,
    k: int,
)
    ensures
        content_views(contents).len() == contents.len(),
        0 <= k < contents.len() ==> match contents[k] {
            Content::Text(text) => content_views(contents)[k] == ContentView::Text(text@),
            Content::Image(data) => content_views(contents)[k] == ContentView::Image(data@),
        },
        attached is Nothing <==> attached@ is Nothing,
        attached matches Attachment::One(i) ==> attached@ == AttachmentView::One(i as int),
        attached matches Attachment::Several(list) ==> attached@ is Several
            && attached@->Several_0.len() == list@.len() && (0 <= k < list@.len()
            ==> attached@->Several_0[k] == list@[k]),
{
}

/// Law: the screenshots come in the order of the windows. A window with one adds
/// its caption, which names the window by id and title with the size, and then
/// the image; a window without one adds nothing.
pub proof fn law_screenshots_come_in_order(
    a: Seq<WindowInfo>,
    b: Seq<WindowInfo>,
    info: WindowInfo,
)
    ensures
        screenshots(a + b) == screenshots(a) + screenshots(b),
        info.screenshot_png is None ==> screenshots(seq![info]).len() == 0,
        info.screenshot_png matches Some(png) ==> {
            let id = crate::text::decimal(info.id as nat);
            screenshots(seq![info]) == seq![
                ContentView::Text(
                    "Screenshot of window "@ + id + " ("@ + crate::text::str_debug(info.title@)
                        + "), "@ + crate::text::decimal_int(info.width as int) + "x"@
                        + crate::text::decimal_int(info.height as int)
                        + " px. Coordinates inside this image are window-relative coordinates for window "@
                        + id + "."@,
                ),
                ContentView::Image(base64(png@)),
            ]
        },
    decreases b.len(),
{
    let one = seq![info];
    assert(one.drop_last() =~= Seq::<WindowInfo>::empty());
    assert(screenshots(one.drop_last()) =~= Seq::<ContentView>::empty());
    if let Some(png) = info.screenshot_png {
        assert(screenshots(one) =~= seq![
            ContentView::Text(caption(info)),
            ContentView::Image(base64(png@)),
        ]);
    }
    if b.len() == 0 {
        assert(a + b =~= a);
        assert(screenshots(a) + screenshots(b) =~= screenshots(a));
    } else {
        law_screenshots_come_in_order(a, b.drop_last(), info);
        assert((a + b).drop_last() =~= a + b.drop_last());
        assert((a + b).last() == b.last());
        assert(screenshots(a + b) =~= screenshots(a) + screenshots(b));
    }
}

/// Law: the model is told how to reach the desktop: the instructions start with
/// its display and end with the address of the monitor.
pub proof fn law_instructions_name_display_and_monitor(env: EnvInfo)
    ensures
        ({
            let all = instructions(env);
            let start = "Virtual Wayland desktop ("@ + env.wayland_display@ + ")"@;
            let end = " at "@ + env.monitor_url@ + "."@;
            &&& all.len() >= start.len() + end.len()
            &&& all.take(start.len() as int) == start
            &&& all.skip(all.len() - end.len()) == end
        }),
{
    reveal_strlit("Virtual Wayland desktop (");
    reveal_strlit(")");
    reveal_strlit(" at ");
    reveal_strlit(".");
    reveal_strlit(
        "). Every tool injects input and then waits until the UI settles (two quiet ping rounds or wait_ms timeout), returning the window list plus screenshots and accessibility metadata of changed windows — no separate screenshot polling is needed. Coordinates: pass `window` to use window-relative coordinates matching that window's screenshot; without it, coordinates are global desktop pixels. Start apps with launch_app. A human can watch the desktop read-only at ",
    );
    let all = instructions(env);
    let start = "Virtual Wayland desktop ("@ + env.wayland_display@ + ")"@;
    let end = " at "@ + env.monitor_url@ + "."@;
    assert(all.take(start.len() as int) =~= start);
    assert(all.skip(all.len() - end.len()) =~= end);
}

} // verus!
