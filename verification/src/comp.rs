//! The desktop: its windows in stacking order, focus and input injection.

pub mod effects;
pub mod laws;

use std::collections::HashMap;

use vstd::prelude::*;
use vstd::string::*;

use crate::ipc::{Action, MouseButton, Request, SnapshotRequest};
use crate::keys::{combo_mentions_shift, KeyMapper, KeyPress, Lookup};
use crate::text::{chars_of, debug_char, decimal_u64};
use crate::tracker::{PingKey, PingTable, Wait, WaitView};

verus! {

broadcast use vstd::std_specs::hash::group_hash_axioms;

/// Tag stored with each window of the display server to identify it across
/// the API.
#[derive(Debug, Clone, Copy, PartialEq, Eq, Structural)]
pub struct WindowIdTag(pub u64);

/// A rectangle on the virtual desktop, in pixels.
#[derive(Debug, Clone, Copy, PartialEq, Eq, Structural)]
pub struct Rect {
    pub x: i32,
    pub y: i32,
    pub width: i32,
    pub height: i32,
}

/// What draws into a window.
#[derive(Debug, Clone, Copy, PartialEq, Eq, Structural)]
pub enum Surface {
    /// A Wayland toplevel; `client` is the ping key of its shell client while
    /// that client is alive.
    Wayland { client: Option<u64> },
    /// An X11 window behind XWayland.
    X11 { window: u32 },
}

/// A registered window.
#[derive(Debug)]
pub struct Window {
    pub id: u64,
    pub surface: Surface,
    /// Where the window is mapped, if it is.
    pub geometry: Option<Rect>,
    pub title: String,
    pub app_id: String,
    pub pid: Option<i32>,
}

/// The state of the desktop. Instants are nanoseconds since startup.
pub struct DesktopState<C> {
    /// All windows, from the bottom of the stack to the top.
    pub windows: Vec<Window>,
    pub next_window_id: u64,
    pub focused_window: Option<u64>,
    pub pointer_x: C,
    pub pointer_y: C,
    pub screen_width: i32,
    pub screen_height: i32,
    pub keymapper: KeyMapper,
    pub ping_states: PingTable,
    /// Whether an X11 window takes part in pings, as far as it was asked.
    pub x11_ping_support: HashMap<u32, bool>,
    pub next_x11_serial: u32,
    pub waits: Vec<Wait>,
}

/// Whether a window of this id is among the windows.
pub open spec fn has_id(windows: Seq<Window>, id: u64) -> bool {
    exists|i: int| 0 <= i < windows.len() && (#[trigger] windows[i]).id == id
}

/// The ids of the windows.
pub open spec fn ids(windows: Seq<Window>) -> Set<u64> {
    Set::new(|id: u64| has_id(windows, id))
}

impl<C> DesktopState<C> {
    /// Window ids are unique and below the next id to hand out, so are the ids
    /// that the waits know from their start, and the focused window is a
    /// registered one.
    pub open spec fn wf(self) -> bool {
        &&& forall|i: int, j: int|
            0 <= i < j < self.windows@.len() ==> self.windows@[i].id != self.windows@[j].id
        &&& forall|i: int|
            0 <= i < self.windows@.len() ==> (#[trigger] self.windows@[i]).id < self.next_window_id
        &&& crate::tracker::known_below(
            crate::tracker::wait_views(self.waits@),
            self.next_window_id,
        )
        &&& self.focused_window matches Some(id) ==> has_id(self.windows@, id)
    }
}

/// A key that goes down or up.
#[derive(Debug, Clone, Copy, PartialEq, Eq, Structural)]
pub struct KeyEvent {
    pub keycode: u32,
    pub pressed: bool,
}

/// Where to move the pointer.
#[derive(Debug, Clone, Copy, PartialEq)]
pub enum Aim<C> {
    /// This point of the desktop.
    At { x: C, y: C },
    /// The point (x, y) counted from this corner.
    Within { left: i32, top: i32, x: C, y: C },
    /// The centre of this rectangle.
    Center { area: Rect },
}

/// One thing to do on the display server. Steps are carried out in order.
#[derive(Debug, Clone, Copy, PartialEq)]
pub enum Step<C> {
    /// Map a new window at this position, on top of the others.
    Place { id: u64, x: i32, y: i32 },
    Remove { id: u64 },
    /// Put the window on top of the stack.
    Raise { id: u64 },
    /// Show the window as active or inactive.
    Activate { id: u64, active: bool },
    KeyboardFocus { id: u64 },
    /// Move the pointer, limited to the screen.
    Motion { to: Aim<C> },
    /// Find the window under the pointer and report it to
    /// [`DesktopState::focus_under_pointer`].
    FocusUnderPointer,
    Button { code: u32, pressed: bool },
    Axis { dx: C, dy: C },
    Key { event: KeyEvent },
    /// Send the events of [`tap_key`] this many times.
    Taps { press: KeyPress, times: u32 },
    Close { id: u64 },
    Configure { id: u64, width: i32, height: i32 },
}

/// The events of a key tap: Shift is held around the key if needed.
pub open spec fn tap_events(press: KeyPress) -> Seq<KeyEvent> {
    let shift = (crate::keys::KEY_LEFTSHIFT + 8) as u32;
    let down = KeyEvent { keycode: press.keycode, pressed: true };
    let up = KeyEvent { keycode: press.keycode, pressed: false };
    if press.shift {
        seq![
            KeyEvent { keycode: shift, pressed: true },
            down,
            up,
            KeyEvent { keycode: shift, pressed: false },
        ]
    } else {
        seq![down, up]
    }
}

/// The events of a key tap.
pub fn tap_key(press: KeyPress) -> (r: Vec<KeyEvent>)
    ensures
        r@ == tap_events(press),
{
    let mut out: Vec<KeyEvent> = Vec::new();
    let shift = KeyMapper::shift_keycode();
    if press.shift {
        out.push(KeyEvent { keycode: shift, pressed: true });
    }
    out.push(KeyEvent { keycode: press.keycode, pressed: true });
    out.push(KeyEvent { keycode: press.keycode, pressed: false });
    if press.shift {
        out.push(KeyEvent { keycode: shift, pressed: false });
    }
    assert(out@ =~= tap_events(press));
    out
}

/// The position of the first window of this id.
pub open spec fn find(windows: Seq<Window>, id: u64) -> Option<int>
    decreases windows.len(),
{
    if windows.len() == 0 {
        None
    } else {
        match find(windows.drop_last(), id) {
            Some(i) => Some(i),
            None => if windows.last().id == id {
                Some(windows.len() - 1)
            } else {
                None
            },
        }
    }
}

pub proof fn lemma_find(windows: Seq<Window>, id: u64)
    ensures
        find(windows, id) is Some <==> has_id(windows, id),
        find(windows, id) matches Some(i) ==> 0 <= i < windows.len() && windows[i].id == id,
    decreases windows.len(),
{
    if windows.len() > 0 {
        let rest = windows.drop_last();
        lemma_find(rest, id);
        if has_id(rest, id) {
            let k = choose|k: int| 0 <= k < rest.len() && rest[k].id == id;
            assert(windows[k].id == id);
        }
        if windows.last().id == id {
            assert(windows[windows.len() - 1].id == id);
        }
        if has_id(windows, id) {
            let k = choose|k: int| 0 <= k < windows.len() && windows[k].id == id;
            if k < windows.len() - 1 {
                assert(rest[k].id == id);
            }
        }
    }
}

/// The refusal of an unknown window id.
pub open spec fn no_window(id: u64) -> Seq<char> {
    "no window with id "@ + crate::text::decimal(id as nat)
}

/// The refusal of a window that is nowhere on the screen.
pub open spec fn not_mapped(id: u64) -> Seq<char> {
    "window "@ + crate::text::decimal(id as nat) + " is not mapped"@
}

/// The warning about a character without a key.
pub open spec fn untypable(c: char) -> Seq<char> {
    "character "@ + crate::text::char_debug(c) + " cannot be typed with the us keymap; skipped"@
}

/// The windows after one of them was raised.
pub open spec fn raised(windows: Seq<Window>, i: int) -> Seq<Window> {
    windows.remove(i).push(windows[i])
}

/// The windows and the focus.
pub struct Scene {
    pub windows: Seq<Window>,
    pub focused: Option<u64>,
}

/// The steps that give a window the focus, where `windows` is the stack with
/// that window already on top.
pub open spec fn focus_steps<C>(windows: Seq<Window>, id: u64) -> Seq<Step<C>> {
    seq![Step::Raise { id }] + windows.map_values(
        |w: Window| Step::Activate { id: w.id, active: w.id == id },
    ) + seq![Step::KeyboardFocus { id }]
}

impl Scene {
    /// The scene with this window on top and focused; unchanged if there is
    /// none.
    pub open spec fn focus(self, id: u64) -> Scene {
        match find(self.windows, id) {
            Some(i) => Scene { windows: raised(self.windows, i), focused: Some(id) },
            None => self,
        }
    }

    /// The steps of [`Self::focus`].
    pub open spec fn focusing<C>(self, id: u64) -> Seq<Step<C>> {
        match find(self.windows, id) {
            Some(i) => focus_steps(raised(self.windows, i), id),
            None => Seq::empty(),
        }
    }

    /// The window that gets keyboard input if nothing has it yet.
    pub open spec fn default_focus(self, keyboard_focused: bool) -> Option<u64> {
        if keyboard_focused || self.windows.len() == 0 {
            None
        } else {
            Some(self.windows.last().id)
        }
    }

    /// The scene once keyboard input goes somewhere.
    pub open spec fn with_keyboard(self, keyboard_focused: bool) -> Scene {
        match self.default_focus(keyboard_focused) {
            Some(id) => self.focus(id),
            None => self,
        }
    }

    /// The steps of [`Self::with_keyboard`].
    pub open spec fn keyboard_steps<C>(self, keyboard_focused: bool) -> Seq<Step<C>> {
        match self.default_focus(keyboard_focused) {
            Some(id) => self.focusing(id),
            None => Seq::empty(),
        }
    }
}

impl<C> DesktopState<C> {
    pub open spec fn scene(self) -> Scene {
        Scene { windows: self.windows@, focused: self.focused_window }
    }

    /// Where a window is, or why that cannot be said.
    pub open spec fn area(self, id: u64) -> Result<Rect, Seq<char>> {
        match find(self.windows@, id) {
            None => Err(no_window(id)),
            Some(i) => match self.windows@[i].geometry {
                Some(area) => Ok(area),
                None => Err(not_mapped(id)),
            },
        }
    }

    /// The point that coordinates mean: relative to the window if one is
    /// given, global otherwise. Without both coordinates it is the pointer
    /// position.
    pub open spec fn point(self, x: Option<C>, y: Option<C>, window: Option<u64>) -> Result<
        Aim<C>,
        Seq<char>,
    > {
        match (x, y) {
            (Some(x), Some(y)) => match window {
                Some(id) => match self.area(id) {
                    Ok(area) => Ok(Aim::Within { left: area.x, top: area.y, x, y }),
                    Err(text) => Err(text),
                },
                None => Ok(Aim::At { x, y }),
            },
            _ => Ok(Aim::At { x: self.pointer_x, y: self.pointer_y }),
        }
    }

    /// The point to move to before a pointer action: nowhere if nothing is
    /// given, the window centre if only a window is given.
    pub open spec fn target(self, x: Option<C>, y: Option<C>, window: Option<u64>) -> Result<
        Option<Aim<C>>,
        Seq<char>,
    > {
        if x is None && y is None {
            match window {
                None => Ok(None),
                Some(id) => match self.area(id) {
                    Ok(area) => Ok(Some(Aim::Center { area })),
                    Err(text) => Err(text),
                },
            }
        } else {
            match self.point(x, y, window) {
                Ok(aim) => Ok(Some(aim)),
                Err(text) => Err(text),
            }
        }
    }

    /// The position of a window in the stack.
    pub fn window_by_id(&self, id: u64) -> (r: Result<usize, String>)
        ensures
            match find(self.windows@, id) {
                Some(i) => r is Ok && r->Ok_0 == i && i < self.windows@.len(),
                None => r is Err && r->Err_0@ == no_window(id),
            },
    {
        for i in 0..self.windows.len()
            invariant
                find(self.windows@.take(i as int), id) is None,
        {
            assert(self.windows@.take(i + 1).drop_last() == self.windows@.take(i as int));
            if self.windows[i].id == id {
                proof {
                    lemma_find_prefix(self.windows@, i + 1, id);
                }
                return Ok(i);
            }
        }
        assert(self.windows@.take(self.windows@.len() as int) == self.windows@);
        Err("no window with id ".to_owned().concat(&decimal_u64(id)))
    }

    fn area_of(&self, id: u64) -> (r: Result<Rect, String>)
        ensures
            match self.area(id) {
                Ok(area) => r == Ok::<Rect, String>(area),
                Err(text) => r is Err && r->Err_0@ == text,
            },
    {
        proof {
            lemma_find(self.windows@, id);
        }
        match self.window_by_id(id) {
            Err(text) => Err(text),
            Ok(i) => match self.windows[i].geometry {
                Some(area) => Ok(area),
                None => Err(
                    "window ".to_owned().concat(&decimal_u64(id)).concat(" is not mapped"),
                ),
            },
        }
    }

    /// The point that coordinates mean.
    pub fn resolve_point(&self, x: Option<C>, y: Option<C>, window: Option<u64>) -> (r: Result<
        Aim<C>,
        String,
    >) where C: Copy
        ensures
            match self.point(x, y, window) {
                Ok(aim) => r == Ok::<Aim<C>, String>(aim),
                Err(text) => r is Err && r->Err_0@ == text,
            },
    {
        match (x, y) {
            (Some(x), Some(y)) => match window {
                Some(id) => match self.area_of(id) {
                    Ok(area) => Ok(Aim::Within { left: area.x, top: area.y, x, y }),
                    Err(text) => Err(text),
                },
                None => Ok(Aim::At { x, y }),
            },
            _ => Ok(Aim::At { x: self.pointer_x, y: self.pointer_y }),
        }
    }

    /// The point to move to before a pointer action, if any.
    pub fn optional_point(&self, x: Option<C>, y: Option<C>, window: Option<u64>) -> (r: Result<
        Option<Aim<C>>,
        String,
    >) where C: Copy
        ensures
            match self.target(x, y, window) {
                Ok(aim) => r == Ok::<Option<Aim<C>>, String>(aim),
                Err(text) => r is Err && r->Err_0@ == text,
            },
    {
        if x.is_none() && y.is_none() {
            match window {
                None => Ok(None),
                // window given without coordinates: aim at the window center
                Some(id) => match self.area_of(id) {
                    Ok(area) => Ok(Some(Aim::Center { area })),
                    Err(text) => Err(text),
                },
            }
        } else {
            match self.resolve_point(x, y, window) {
                Ok(aim) => Ok(Some(aim)),
                Err(text) => Err(text),
            }
        }
    }

    /// Gives a window the focus and puts it on top.
    pub fn focus_window_by_id(&mut self, id: u64) -> (r: Result<Vec<Step<C>>, String>)
        ensures
            *final(self) == (DesktopState {
                windows: final(self).windows,
                focused_window: final(self).focused_window,
                ..*old(self)
            }),
            final(self).scene() == old(self).scene().focus(id),
            match find(old(self).windows@, id) {
                Some(_) => r is Ok && r->Ok_0@ == old(self).scene().focusing::<C>(id),
                None => r is Err && r->Err_0@ == no_window(id),
            },
            old(self).wf() ==> final(self).wf(),
    {
        proof {
            lemma_find(self.windows@, id);
        }
        match self.window_by_id(id) {
            Err(text) => Err(text),
            Ok(i) => {
                let window = self.windows.remove(i);
                self.windows.push(window);
                self.focused_window = Some(id);
                let mut steps: Vec<Step<C>> = Vec::new();
                steps.push(Step::Raise { id });
                for k in 0..self.windows.len()
                    invariant
                        steps@ == seq![Step::<C>::Raise { id }] + self.windows@.take(
                            k as int,
                        ).map_values(
                            |w: Window| Step::<C>::Activate { id: w.id, active: w.id == id },
                        ),
                {
                    let other = self.windows[k].id;
                    steps.push(Step::Activate { id: other, active: other == id });
                    assert(steps@ =~= seq![Step::<C>::Raise { id }] + self.windows@.take(
                        k + 1,
                    ).map_values(|w: Window| Step::<C>::Activate { id: w.id, active: w.id == id }));
                }
                assert(self.windows@.take(self.windows@.len() as int) == self.windows@);
                steps.push(Step::KeyboardFocus { id });
                proof {
                    assert(self.windows@ =~= raised(old(self).windows@, i as int));
                    assert(steps@ =~= focus_steps::<C>(self.windows@, id));
                    if old(self).wf() {
                        lemma_raised_wf(*old(self), *self, i as int);
                    }
                }
                Ok(steps)
            },
        }
    }

    /// Click-to-focus: focus and raise the window under the pointer.
    pub fn focus_under_pointer(&mut self, under: Option<u64>) -> (r: Vec<Step<C>>)
        ensures
            *final(self) == (DesktopState {
                windows: final(self).windows,
                focused_window: final(self).focused_window,
                ..*old(self)
            }),
            match under {
                Some(id) => final(self).scene() == old(self).scene().focus(id) && r@ == old(
                    self,
                ).scene().focusing::<C>(id),
                None => *final(self) == *old(self) && r@.len() == 0,
            },
            old(self).wf() ==> final(self).wf(),
    {
        match under {
            Some(id) => match self.focus_window_by_id(id) {
                Ok(steps) => steps,
                Err(_) => {
                    let none: Vec<Step<C>> = Vec::new();
                    assert(none@ =~= old(self).scene().focusing::<C>(id));
                    none
                },
            },
            None => Vec::new(),
        }
    }

    /// Lets keyboard input go to the topmost window if it goes nowhere yet.
    fn ensure_keyboard_focus(&mut self, keyboard_focused: bool) -> (r: Vec<Step<C>>)
        ensures
            *final(self) == (DesktopState {
                windows: final(self).windows,
                focused_window: final(self).focused_window,
                ..*old(self)
            }),
            final(self).scene() == old(self).scene().with_keyboard(keyboard_focused),
            r@ == old(self).scene().keyboard_steps::<C>(keyboard_focused),
            old(self).wf() ==> final(self).wf(),
    {
        if keyboard_focused || self.windows.len() == 0 {
            return Vec::new();
        }
        let top = self.windows[self.windows.len() - 1].id;
        self.focus_under_pointer(Some(top))
    }
}

proof fn lemma_find_prefix(windows: Seq<Window>, n: int, id: u64)
    requires
        0 <= n <= windows.len(),
        find(windows.take(n), id) is Some,
    ensures
        find(windows, id) == find(windows.take(n), id),
    decreases windows.len(),
{
    if n < windows.len() {
        assert(windows.drop_last().take(n) == windows.take(n));
        lemma_find_prefix(windows.drop_last(), n, id);
    } else {
        assert(windows.take(n) == windows);
    }
}

proof fn lemma_raised_wf<C>(a: DesktopState<C>, b: DesktopState<C>, i: int)
    requires
        a.wf(),
        0 <= i < a.windows@.len(),
        b.windows@ == raised(a.windows@, i),
        b.next_window_id == a.next_window_id,
        b.waits == a.waits,
        b.focused_window == Some(a.windows@[i].id),
    ensures
        b.wf(),
{
    let w = a.windows@;
    let v = b.windows@;
    assert(v[v.len() - 1] == w[i]);
    assert forall|j: int| 0 <= j < v.len() - 1 implies v[j] == w[if j < i { j } else { j + 1 }] by {}
    assert(has_id(v, w[i].id));
}

/// What an action comes to.
pub struct Performed<C> {
    /// What to do on the display server. To be done in any case.
    pub steps: Vec<Step<C>>,
    /// Warnings, or why the action is refused.
    pub outcome: Result<Vec<String>, String>,
}

/// The mathematical content of a performed action and the scene it leaves.
pub struct PerformedView<C> {
    pub scene: Scene,
    pub steps: Seq<Step<C>>,
    pub outcome: Result<Seq<Seq<char>>, Seq<char>>,
}

/// Whether an outcome says what its mathematical counterpart says.
pub open spec fn outcome_is(
    r: Result<Vec<String>, String>,
    v: Result<Seq<Seq<char>>, Seq<char>>,
) -> bool {
    match v {
        Ok(warnings) => r is Ok && crate::text::texts(r->Ok_0@) == warnings,
        Err(text) => r is Err && r->Err_0@ == text,
    }
}

/// The taps that type a text; characters without a key are left out.
pub open spec fn typing<C>(keys: KeyMapper, text: Seq<char>) -> Seq<Step<C>>
    decreases text.len(),
{
    if text.len() == 0 {
        Seq::empty()
    } else {
        let before = typing(keys, text.drop_last());
        match keys.char_press(text.last()) {
            Some(press) => before.push(Step::Taps { press, times: 1 }),
            None => before,
        }
    }
}

/// A warning for each character without a key.
pub open spec fn typing_warnings(keys: KeyMapper, text: Seq<char>) -> Seq<Seq<char>>
    decreases text.len(),
{
    if text.len() == 0 {
        Seq::empty()
    } else {
        let before = typing_warnings(keys, text.drop_last());
        match keys.char_press(text.last()) {
            Some(_) => before,
            None => before.push(untypable(text.last())),
        }
    }
}

/// The steps that press or release these keys in order.
pub open spec fn key_steps<C>(codes: Seq<u32>, pressed: bool) -> Seq<Step<C>> {
    codes.map_values(|c: u32| Step::Key { event: KeyEvent { keycode: c, pressed } })
}

/// The steps of a combo: hold the modifiers, tap the key as often as asked, let
/// the modifiers go in reverse. A combo that spells out Shift does not add it again.
pub open spec fn combo_steps<C>(
    combo: Seq<char>,
    codes: Seq<u32>,
    press: KeyPress,
    repeat: u32,
) -> Seq<Step<C>> {
    key_steps(codes, true) + seq![
        Step::Taps {
            press: KeyPress {
                keycode: press.keycode,
                shift: press.shift && !crate::keys::mentions_shift(combo),
            },
            times: repeat,
        },
    ] + key_steps(codes.reverse(), false)
}

/// The optional pointer motion before a pointer action.
pub open spec fn motion<C>(aim: Option<Aim<C>>) -> Seq<Step<C>> {
    match aim {
        Some(to) => seq![Step::Motion { to }],
        None => Seq::empty(),
    }
}

/// A button that goes down or up.
pub open spec fn button_step<C>(button: MouseButton, pressed: bool) -> Step<C> {
    Step::Button { code: button.evdev_code(), pressed }
}

/// A button click, or two.
pub open spec fn clicks<C>(button: MouseButton, double: bool) -> Seq<Step<C>> {
    let once = seq![button_step::<C>(button, true), button_step::<C>(button, false)];
    if double {
        once + once
    } else {
        once
    }
}

/// At least 1.
pub open spec fn at_least_one(n: i32) -> i32 {
    if n < 1 {
        1
    } else {
        n
    }
}

impl<C> DesktopState<C> {
    /// A pointer action: move if asked to, then do the rest. A bad target
    /// refuses the action as a whole.
    pub open spec fn at_target(
        self,
        x: Option<C>,
        y: Option<C>,
        window: Option<u64>,
        rest: Seq<Step<C>>,
    ) -> PerformedView<C> {
        match self.target(x, y, window) {
            Ok(aim) => PerformedView {
                scene: self.scene(),
                steps: motion(aim) + rest,
                outcome: Ok(Seq::empty()),
            },
            Err(text) => PerformedView {
                scene: self.scene(),
                steps: Seq::empty(),
                outcome: Err(text),
            },
        }
    }

    /// A window action: refused if there is no such window.
    pub open spec fn on_window(self, id: u64, step: Step<C>) -> PerformedView<C> {
        match find(self.windows@, id) {
            Some(_) => PerformedView {
                scene: self.scene(),
                steps: seq![step],
                outcome: Ok(Seq::empty()),
            },
            None => PerformedView {
                scene: self.scene(),
                steps: Seq::empty(),
                outcome: Err(no_window(id)),
            },
        }
    }

    /// What an action comes to. `keyboard_focused` tells whether keyboard
    /// input already goes to some window, `found` is the lookup that
    /// [`KeyMapper::combo_to_look_up`] asks for.
    pub open spec fn performed(
        self,
        action: Action<C>,
        keyboard_focused: bool,
        found: Lookup,
    ) -> PerformedView<C> {
        match action {
            Action::Observe => PerformedView {
                scene: self.scene(),
                steps: Seq::empty(),
                outcome: Ok(Seq::empty()),
            },
            Action::MouseMove { x, y, window } => match self.point(Some(x), Some(y), window) {
                Ok(to) => PerformedView {
                    scene: self.scene(),
                    steps: seq![Step::Motion { to }],
                    outcome: Ok(Seq::empty()),
                },
                Err(text) => PerformedView {
                    scene: self.scene(),
                    steps: Seq::empty(),
                    outcome: Err(text),
                },
            },
            Action::Click { button, x, y, window, double } => self.at_target(
                x,
                y,
                window,
                seq![Step::FocusUnderPointer] + clicks(button, double),
            ),
            Action::MouseDown { button, x, y, window } => self.at_target(
                x,
                y,
                window,
                seq![Step::FocusUnderPointer, button_step(button, true)],
            ),
            Action::MouseUp { button, x, y, window } => self.at_target(
                x,
                y,
                window,
                seq![button_step(button, false)],
            ),
            Action::Scroll { dx, dy, x, y, window } => self.at_target(
                x,
                y,
                window,
                seq![Step::Axis { dx, dy }],
            ),
            Action::TypeText { text } => PerformedView {
                scene: self.scene().with_keyboard(keyboard_focused),
                steps: self.scene().keyboard_steps(keyboard_focused) + typing(
                    self.keymapper,
                    text@,
                ),
                outcome: Ok(typing_warnings(self.keymapper, text@)),
            },
            Action::Key { combo, repeat } => {
                let scene = self.scene().with_keyboard(keyboard_focused);
                let focus = self.scene().keyboard_steps(keyboard_focused);
                match self.keymapper.combo_press(combo@, found) {
                    Ok((codes, press)) => PerformedView {
                        scene,
                        steps: focus + combo_steps(combo@, codes, press, repeat),
                        outcome: Ok(Seq::empty()),
                    },
                    Err(text) => PerformedView { scene, steps: focus, outcome: Err(text) },
                }
            },
            Action::FocusWindow { id } => PerformedView {
                scene: self.scene().focus(id),
                steps: self.scene().focusing(id),
                outcome: match find(self.windows@, id) {
                    Some(_) => Ok(Seq::empty()),
                    None => Err(no_window(id)),
                },
            },
            Action::CloseWindow { id } => self.on_window(id, Step::Close { id }),
            Action::ResizeWindow { id, width, height } => self.on_window(
                id,
                Step::Configure { id, width: at_least_one(width), height: at_least_one(height) },
            ),
        }
    }
}

fn done<C>(steps: Vec<Step<C>>) -> (r: Performed<C>)
    ensures
        r.steps == steps,
        outcome_is(r.outcome, Ok(Seq::empty())),
{
    let warnings: Vec<String> = Vec::new();
    assert(crate::text::texts(warnings@) =~= Seq::<Seq<char>>::empty());
    Performed { steps, outcome: Ok(warnings) }
}

fn refused<C>(text: String) -> (r: Performed<C>)
    ensures
        r.steps@ == Seq::<Step<C>>::empty(),
        r.outcome == Err::<Vec<String>, String>(text),
{
    Performed { steps: Vec::new(), outcome: Err(text) }
}

/// Starts the steps of a pointer action with the motion to its target.
fn moving<C: Copy>(aim: Option<Aim<C>>) -> (r: Vec<Step<C>>)
    ensures
        r@ == motion(aim),
{
    let mut steps: Vec<Step<C>> = Vec::new();
    if let Some(to) = aim {
        steps.push(Step::Motion { to });
    }
    assert(steps@ =~= motion(aim));
    steps
}

fn press_button<C>(button: MouseButton, pressed: bool) -> (r: Step<C>)
    ensures
        r == button_step::<C>(button, pressed),
{
    Step::Button { code: button.code(), pressed }
}

impl<C: Copy> DesktopState<C> {
    fn type_text(&self, steps: &mut Vec<Step<C>>, text: &str) -> (r: Vec<String>)
        ensures
            final(steps)@ == old(steps)@ + typing(self.keymapper, text@),
            crate::text::texts(r@) == typing_warnings(self.keymapper, text@),
    {
        let chars = chars_of(text);
        let mut warnings: Vec<String> = Vec::new();
        assert(steps@ =~= old(steps)@ + typing(self.keymapper, text@.take(0)));
        assert(crate::text::texts(warnings@) =~= typing_warnings(self.keymapper, text@.take(0)));
        for i in 0..chars.len()
            invariant
                chars@ == text@,
                steps@ == old(steps)@ + typing(self.keymapper, text@.take(i as int)),
                crate::text::texts(warnings@) == typing_warnings(
                    self.keymapper,
                    text@.take(i as int),
                ),
        {
            let c = chars[i];
            let ghost before = warnings@;
            assert(text@.take(i + 1).drop_last() == text@.take(i as int));
            match self.keymapper.for_char(c) {
                Some(press) => steps.push(Step::Taps { press, times: 1 }),
                None => {
                    let warning = "character ".to_owned().concat(&debug_char(c)).concat(
                        " cannot be typed with the us keymap; skipped",
                    );
                    warnings.push(warning);
                    assert(crate::text::texts(warnings@) =~= crate::text::texts(before).push(
                        warning@,
                    ));
                },
            }
            assert(steps@ =~= old(steps)@ + typing(self.keymapper, text@.take(i + 1)));
        }
        assert(text@.take(text@.len() as int) == text@);
        warnings
    }

    fn press_combo(
        steps: &mut Vec<Step<C>>,
        combo: &str,
        codes: &Vec<u32>,
        press: KeyPress,
        repeat: u32,
    )
        ensures
            final(steps)@ == old(steps)@ + combo_steps(combo@, codes@, press, repeat),
    {
        let ghost start = steps@;
        assert(steps@ =~= start + key_steps(codes@.take(0), true));
        for i in 0..codes.len()
            invariant
                steps@ == start + key_steps(codes@.take(i as int), true),
        {
            steps.push(Step::Key { event: KeyEvent { keycode: codes[i], pressed: true } });
            assert(steps@ =~= start + key_steps(codes@.take(i + 1), true));
        }
        assert(codes@.take(codes@.len() as int) == codes@);
        let shift = press.shift && !combo_mentions_shift(combo);
        let ghost held = steps@;
        let ghost tap = Step::<C>::Taps {
            press: KeyPress { keycode: press.keycode, shift },
            times: repeat,
        };
        steps.push(
            Step::Taps { press: KeyPress { keycode: press.keycode, shift }, times: repeat },
        );
        let ghost rev = codes@.reverse();
        assert(steps@ =~= held + seq![tap] + key_steps(rev.take(0), false));
        let n = codes.len();
        for i in 0..n
            invariant
                n == codes@.len(),
                rev == codes@.reverse(),
                steps@ == held + seq![tap] + key_steps(rev.take(i as int), false),
        {
            steps.push(
                Step::Key { event: KeyEvent { keycode: codes[n - 1 - i], pressed: false } },
            );
            assert(steps@ =~= held + seq![tap] + key_steps(rev.take(i + 1), false));
        }
        assert(rev.take(rev.len() as int) == rev);
        assert(steps@ =~= start + combo_steps(combo@, codes@, press, repeat));
    }

    /// Turns an action into steps. `keyboard_focused` tells whether keyboard
    /// input already goes to some window, `found` is the lookup that
    /// [`KeyMapper::combo_to_look_up`] asks for.
    pub fn perform_action(
        &mut self,
        action: &Action<C>,
        keyboard_focused: bool,
        found: Lookup,
    ) -> (r: Performed<C>)
        ensures
            *final(self) == (DesktopState {
                windows: final(self).windows,
                focused_window: final(self).focused_window,
                ..*old(self)
            }),
            final(self).scene() == old(self).performed(*action, keyboard_focused, found).scene,
            r.steps@ == old(self).performed(*action, keyboard_focused, found).steps,
            outcome_is(r.outcome, old(self).performed(*action, keyboard_focused, found).outcome),
            old(self).wf() ==> final(self).wf(),
    {
        let ghost v = self.performed(*action, keyboard_focused, found);
        match action {
            Action::Observe => done(Vec::new()),
            Action::MouseMove { x, y, window } => match self.resolve_point(
                Some(*x),
                Some(*y),
                *window,
            ) {
                Ok(to) => {
                    let steps = moving(Some(to));
                    assert(steps@ =~= v.steps);
                    done(steps)
                },
                Err(text) => refused(text),
            },
            Action::Click { button, x, y, window, double } => match self.optional_point(
                *x,
                *y,
                *window,
            ) {
                Ok(aim) => {
                    let mut steps = moving(aim);
                    steps.push(Step::FocusUnderPointer);
                    steps.push(press_button(*button, true));
                    steps.push(press_button(*button, false));
                    if *double {
                        steps.push(press_button(*button, true));
                        steps.push(press_button(*button, false));
                    }
                    assert(steps@ =~= v.steps);
                    done(steps)
                },
                Err(text) => refused(text),
            },
            Action::MouseDown { button, x, y, window } => match self.optional_point(
                *x,
                *y,
                *window,
            ) {
                Ok(aim) => {
                    let mut steps = moving(aim);
                    steps.push(Step::FocusUnderPointer);
                    steps.push(press_button(*button, true));
                    assert(steps@ =~= v.steps);
                    done(steps)
                },
                Err(text) => refused(text),
            },
            Action::MouseUp { button, x, y, window } => match self.optional_point(
                *x,
                *y,
                *window,
            ) {
                Ok(aim) => {
                    let mut steps = moving(aim);
                    steps.push(press_button(*button, false));
                    assert(steps@ =~= v.steps);
                    done(steps)
                },
                Err(text) => refused(text),
            },
            Action::Scroll { dx, dy, x, y, window } => match self.optional_point(
                *x,
                *y,
                *window,
            ) {
                Ok(aim) => {
                    let mut steps = moving(aim);
                    steps.push(Step::Axis { dx: *dx, dy: *dy });
                    assert(steps@ =~= v.steps);
                    done(steps)
                },
                Err(text) => refused(text),
            },
            Action::TypeText { text } => {
                let mut steps = self.ensure_keyboard_focus(keyboard_focused);
                let warnings = self.type_text(&mut steps, text);
                Performed { steps, outcome: Ok(warnings) }
            },
            Action::Key { combo, repeat } => {
                let mut steps = self.ensure_keyboard_focus(keyboard_focused);
                match self.keymapper.parse_combo(combo, found) {
                    Ok((codes, press)) => {
                        Self::press_combo(&mut steps, combo, &codes, press, *repeat);
                        done(steps)
                    },
                    Err(text) => Performed { steps, outcome: Err(text) },
                }
            },
            Action::FocusWindow { id } => match self.focus_window_by_id(*id) {
                Ok(steps) => done(steps),
                Err(text) => refused(text),
            },
            Action::CloseWindow { id } => match self.window_by_id(*id) {
                Ok(_) => {
                    let mut steps: Vec<Step<C>> = Vec::new();
                    steps.push(Step::Close { id: *id });
                    assert(steps@ =~= v.steps);
                    done(steps)
                },
                Err(text) => refused(text),
            },
            Action::ResizeWindow { id, width, height } => match self.window_by_id(*id) {
                Ok(_) => {
                    let mut steps: Vec<Step<C>> = Vec::new();
                    let w: i32 = if *width < 1 {
                        1
                    } else {
                        *width
                    };
                    let h: i32 = if *height < 1 {
                        1
                    } else {
                        *height
                    };
                    steps.push(Step::Configure { id: *id, width: w, height: h });
                    assert(steps@ =~= v.steps);
                    done(steps)
                },
                Err(text) => refused(text),
            },
        }
    }
}

/// How a request is answered.
pub enum Answer {
    /// Right away, with the reason why the action is refused.
    Refusal { text: String },
    /// Right away, with the current state: [`DesktopState::answer_now`].
    Now { snapshot: SnapshotRequest, warnings: Vec<String> },
    /// Once the UI has settled.
    Later,
}

/// What a request comes to.
pub struct Handled<C> {
    /// What to do on the display server. To be done in any case.
    pub steps: Vec<Step<C>>,
    pub answer: Answer,
}

/// The offset of the n-th window of the cascade, in both directions.
pub open spec fn cascade(n: nat) -> int {
    24 + 32 * (n as int % 16)
}

impl<C> DesktopState<C> {
    /// An empty desktop of this size.
    pub fn new(
        screen_width: i32,
        screen_height: i32,
        pointer_x: C,
        pointer_y: C,
        keymapper: KeyMapper,
    ) -> (r: Self)
        ensures
            r.wf(),
            r.windows@.len() == 0,
            r.next_window_id == 1,
            r.focused_window is None,
            r.pointer_x == pointer_x,
            r.pointer_y == pointer_y,
            r.screen_width == screen_width,
            r.screen_height == screen_height,
            r.keymapper == keymapper,
            r.ping_states@ == Map::<PingKey, crate::tracker::PingState>::empty(),
            r.x11_ping_support@ == Map::<u32, bool>::empty(),
            r.next_x11_serial == 1,
            r.waits@.len() == 0,
    {
        DesktopState {
            windows: Vec::new(),
            next_window_id: 1,
            focused_window: None,
            pointer_x,
            pointer_y,
            screen_width,
            screen_height,
            keymapper,
            ping_states: PingTable::new(),
            x11_ping_support: HashMap::new(),
            next_x11_serial: 1,
            waits: Vec::new(),
        }
    }

    /// The pointer is at this point of the screen now.
    pub fn pointer_motion(&mut self, x: C, y: C)
        ensures
            *final(self) == (DesktopState { pointer_x: x, pointer_y: y, ..*old(self) }),
            old(self).wf() ==> final(self).wf(),
    {
        self.pointer_x = x;
        self.pointer_y = y;
    }

    /// Keyboard focus went to this window, or to none of the windows.
    pub fn focus_changed(&mut self, id: Option<u64>)
        ensures
            *final(self) == (DesktopState {
                focused_window: match id {
                    Some(i) => if has_id(old(self).windows@, i) {
                        Some(i)
                    } else {
                        None
                    },
                    None => None,
                },
                ..*old(self)
            }),
            old(self).wf() ==> final(self).wf(),
    {
        let known = match id {
            Some(i) => {
                proof {
                    lemma_find(self.windows@, i);
                }
                self.window_by_id(i).is_ok()
            },
            None => false,
        };
        self.focused_window = if known {
            id
        } else {
            None
        };
    }

    /// Takes over what the display server knows of a window. False if there
    /// is no such window.
    pub fn observe_window(
        &mut self,
        id: u64,
        surface: Surface,
        geometry: Option<Rect>,
        title: String,
        app_id: String,
        pid: Option<i32>,
    ) -> (r: bool)
        ensures
            *final(self) == (DesktopState { windows: final(self).windows, ..*old(self) }),
            match find(old(self).windows@, id) {
                Some(i) => r && final(self).windows@ == old(self).windows@.update(
                    i,
                    Window { id, surface, geometry, title, app_id, pid },
                ),
                None => !r && *final(self) == *old(self),
            },
            old(self).wf() ==> final(self).wf(),
    {
        proof {
            lemma_find(self.windows@, id);
        }
        match self.window_by_id(id) {
            Ok(i) => {
                self.windows.set(i, Window { id, surface, geometry, title, app_id, pid });
                proof {
                    assert forall|k: u64| has_id(old(self).windows@, k) implies has_id(
                        self.windows@,
                        k,
                    ) by {
                        let j = choose|j: int|
                            0 <= j < old(self).windows@.len() && old(self).windows@[j].id == k;
                        assert(self.windows@[j].id == k);
                    }
                }
                true
            },
            Err(_) => false,
        }
    }

    /// A new toplevel appeared: it gets the next id and the focus, and it is
    /// new to every pending wait. New windows are cascaded so that they don't
    /// fully overlap.
    pub fn new_toplevel(&mut self, surface: Surface, now: u64) -> (r: (u64, Vec<Step<C>>))
        requires
            old(self).wf(),
            old(self).next_window_id < u64::MAX,
        ensures
            final(self).wf(),
            *final(self) == (DesktopState {
                windows: final(self).windows,
                next_window_id: (old(self).next_window_id + 1) as u64,
                focused_window: Some(old(self).next_window_id),
                waits: final(self).waits,
                ..*old(self)
            }),
            final(self).windows@.drop_last() == old(self).windows@,
            ({
                let w = final(self).windows@.last();
                &&& w.id == old(self).next_window_id
                &&& w.surface == surface
                &&& w.geometry is None
                &&& w.title@.len() == 0
                &&& w.app_id@.len() == 0
                &&& w.pid is None
            }),
            crate::tracker::wait_views(final(self).waits@) == crate::tracker::wait_views(
                old(self).waits@,
            ).map_values(|w: WaitView| w.after_activity(old(self).next_window_id, now)),
            forall|i: int|
                0 <= i < final(self).waits@.len() ==> {
                    let w = #[trigger] crate::tracker::wait_views(final(self).waits@)[i];
                    &&& !w.known_at_start.contains(r.0)
                    &&& w.changed.contains(r.0)
                    &&& w.has_activity
                    &&& w.last_activity == now
                },
            r.0 == old(self).next_window_id,
            r.1@ == seq![
                Step::<C>::Place {
                    id: r.0,
                    x: cascade(old(self).windows@.len()) as i32,
                    y: cascade(old(self).windows@.len()) as i32,
                },
            ] + focus_steps::<C>(final(self).windows@, r.0),
    {
        let id = self.next_window_id;
        self.next_window_id = id + 1;
        let n: i32 = (self.windows.len() % 16) as i32;
        let offset: i32 = 24 + 32 * n;
        let ghost count = self.windows@.len();
        assert(offset == cascade(count));
        let window = Window {
            id,
            surface,
            geometry: None,
            title: String::new(),
            app_id: String::new(),
            pid: None,
        };
        self.windows.push(window);
        let ghost stack = self.windows@;
        proof {
            assert(stack.drop_last() == old(self).windows@);
            lemma_find(old(self).windows@, id);
            assert(find(stack, id) == Some(count as int));
            assert(raised(stack, count as int) =~= stack);
            assert forall|k: u64| has_id(old(self).windows@, k) implies has_id(stack, k) by {
                let j = choose|j: int|
                    0 <= j < old(self).windows@.len() && old(self).windows@[j].id == k;
                assert(stack[j].id == k);
            }
            assert(self.wf());
        }
        self.note_window_activity(id, now);
        proof {
            let before = crate::tracker::wait_views(old(self).waits@);
            let after = crate::tracker::wait_views(self.waits@);
            assert forall|i: int| 0 <= i < after.len() implies {
                let w = #[trigger] after[i];
                &&& !w.known_at_start.contains(id)
                &&& w.changed.contains(id)
                &&& w.has_activity
                &&& w.last_activity == now
            } by {
                assert(after[i] == before[i].after_activity(id, now));
                assert(!before[i].known_at_start.contains(id));
            }
        }
        let mut steps: Vec<Step<C>> = Vec::new();
        steps.push(Step::Place { id, x: offset, y: offset });
        let mut focus = self.focus_under_pointer(Some(id));
        steps.append(&mut focus);
        (id, steps)
    }

    /// A toplevel is gone. If it had the focus, the topmost window gets it.
    pub fn toplevel_destroyed(&mut self, id: u64, now: u64) -> (r: Vec<Step<C>>)
        requires
            old(self).wf(),
        ensures
            final(self).wf(),
            match find(old(self).windows@, id) {
                Some(i) => {
                    let left = Scene {
                        windows: old(self).windows@.remove(i),
                        focused: if old(self).focused_window == Some(id) {
                            None
                        } else {
                            old(self).focused_window
                        },
                    };
                    &&& *final(self) == (DesktopState {
                        windows: final(self).windows,
                        focused_window: final(self).focused_window,
                        waits: final(self).waits,
                        ..*old(self)
                    })
                    &&& !has_id(final(self).windows@, id)
                    &&& final(self).scene() == left.with_keyboard(
                        old(self).focused_window != Some(id),
                    )
                    &&& crate::tracker::wait_views(final(self).waits@) == crate::tracker::wait_views(
                        old(self).waits@,
                    ).map_values(|w: WaitView| w.after_close(id, now))
                    &&& r@ == seq![Step::<C>::Remove { id }] + left.keyboard_steps::<C>(
                        old(self).focused_window != Some(id),
                    )
                },
                None => *final(self) == *old(self) && r@.len() == 0,
            },
    {
        proof {
            lemma_find(self.windows@, id);
        }
        let i = match self.window_by_id(id) {
            Ok(i) => i,
            Err(_) => {
                return Vec::new();
            },
        };
        let had_focus = match self.focused_window {
            Some(focused) => focused == id,
            None => false,
        };
        self.windows.remove(i);
        if had_focus {
            self.focused_window = None;
        }
        let ghost stack = self.windows@;
        proof {
            lemma_removed(old(self).windows@, i as int);
            if let Some(focused) = self.focused_window {
                assert(has_id(old(self).windows@, focused));
                assert(has_id(stack, focused));
            }
            assert(self.wf());
        }
        self.note_window_closed(id, now);
        let mut steps: Vec<Step<C>> = Vec::new();
        steps.push(Step::Remove { id });
        let mut focus = self.ensure_keyboard_focus(!had_focus);
        steps.append(&mut focus);
        proof {
            lemma_focus_keeps_ids(
                Scene { windows: stack, focused: old(self).focused_window },
                if stack.len() > 0 { stack.last().id } else { 0 },
            );
            assert(!has_id(stack, id));
            assert(!has_id(self.windows@, id));
        }
        steps
    }
}

proof fn lemma_removed(w: Seq<Window>, i: int)
    requires
        0 <= i < w.len(),
        forall|a: int, b: int| 0 <= a < b < w.len() ==> w[a].id != w[b].id,
    ensures
        !has_id(w.remove(i), w[i].id),
        forall|k: u64| has_id(w, k) && k != w[i].id ==> has_id(w.remove(i), k),
{
    let v = w.remove(i);
    assert forall|k: u64| has_id(w, k) && k != w[i].id implies has_id(v, k) by {
        let j = choose|j: int| 0 <= j < w.len() && w[j].id == k;
        if j < i {
            assert(v[j].id == k);
        } else {
            assert(v[j - 1].id == k);
        }
    }
    if has_id(v, w[i].id) {
        let j = choose|j: int| 0 <= j < v.len() && v[j].id == w[i].id;
        assert(v[j] == w[if j < i { j } else { j + 1 }]);
    }
}

/// Focusing changes the order of the windows, not which there are.
proof fn lemma_focus_keeps_ids(scene: Scene, id: u64)
    ensures
        forall|k: u64| has_id(scene.focus(id).windows, k) <==> has_id(scene.windows, k),
{
    lemma_find(scene.windows, id);
    if let Some(i) = find(scene.windows, id) {
        let w = scene.windows;
        let v = raised(w, i);
        assert forall|k: u64| has_id(v, k) <==> has_id(w, k) by {
            if has_id(w, k) {
                let j = choose|j: int| 0 <= j < w.len() && w[j].id == k;
                if j < i {
                    assert(v[j].id == k);
                } else if j > i {
                    assert(v[j - 1].id == k);
                } else {
                    assert(v[v.len() - 1].id == k);
                }
            }
            if has_id(v, k) {
                let j = choose|j: int| 0 <= j < v.len() && v[j].id == k;
                if j < v.len() - 1 {
                    assert(v[j] == w[if j < i { j } else { j + 1 }]);
                } else {
                    assert(v[j] == w[i]);
                }
            }
        }
    }
}

/// The size in millimetres that a number of pixels is advertised as, rounded
/// towards zero.
pub fn physical_size(pixels: i32) -> (r: i32)
    requires
        i32::MIN <= pixels * 25 <= i32::MAX,
    ensures
        pixels >= 0 ==> r == (pixels * 25) / 96,
        pixels < 0 ==> r == -((-pixels * 25) / 96),
{
    if pixels >= 0 {
        pixels * 25 / 96
    } else {
        let magnitude: i64 = -(pixels as i64) * 25 / 96;
        (-magnitude) as i32
    }
}

impl<C> DesktopState<C> {
    /// The timestamp of an input event: milliseconds since startup, which
    /// start over every 2^32 milliseconds.
    pub fn now_ms(&self, now: u64) -> (r: u32)
        ensures
            r == (now / 1_000_000) % 0x1_0000_0000,
    {
        let ms: u64 = (now / 1_000_000) % 0x1_0000_0000;
        ms as u32
    }
}

impl<C: Copy> DesktopState<C> {
    /// Performs the action of a request and decides how to answer it: a
    /// refused action is answered at once, so is a request without a timeout,
    /// and every other request once the UI has settled.
    pub fn handle_request(
        &mut self,
        request: Request<C>,
        keyboard_focused: bool,
        found: Lookup,
        now: u64,
    ) -> (r: Handled<C>)
        ensures
            *final(self) == (DesktopState {
                windows: final(self).windows,
                focused_window: final(self).focused_window,
                waits: final(self).waits,
                ..*old(self)
            }),
            old(self).wf() ==> final(self).wf(),
            ({
                let v = old(self).performed(request.action, keyboard_focused, found);
                &&& final(self).scene() == v.scene
                &&& r.steps@ == v.steps
                &&& match v.outcome {
                    Err(text) => {
                        &&& r.answer is Refusal
                        &&& r.answer->text@ == text
                        &&& final(self).waits == old(self).waits
                    },
                    Ok(warnings) => if request.wait.timeout_ms == 0 {
                        &&& r.answer is Now
                        &&& r.answer->snapshot == request.snapshot
                        &&& crate::text::texts(r.answer->warnings@) == warnings
                        &&& final(self).waits == old(self).waits
                    } else {
                        &&& r.answer is Later
                        &&& crate::tracker::wait_views(final(self).waits@)
                            == crate::tracker::wait_views(old(self).waits@).push(
                            crate::tracker::fresh_wait(
                                request.wait,
                                ids(final(self).windows@),
                                request.snapshot,
                                request.reply,
                                warnings,
                                now,
                            ),
                        )
                    },
                }
            }),
    {
        let performed = self.perform_action(&request.action, keyboard_focused, found);
        let warnings = match performed.outcome {
            Ok(warnings) => warnings,
            Err(text) => {
                return Handled { steps: performed.steps, answer: Answer::Refusal { text } };
            },
        };
        if request.wait.timeout_ms == 0 {
            Handled {
                steps: performed.steps,
                answer: Answer::Now { snapshot: request.snapshot, warnings },
            }
        } else {
            self.start_wait(request.wait, request.snapshot, request.reply, warnings, now);
            Handled { steps: performed.steps, answer: Answer::Later }
        }
    }
}

} // verus!
