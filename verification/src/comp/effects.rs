//! What actions come to, step by step.

use vstd::prelude::*;

use crate::comp::{Aim, DesktopState, KeyEvent, Rect, Scene, Step, Window};
use crate::ipc::{Action, MouseButton};
use crate::keys::{KeyMapper, KeyPress, Lookup};

verus! {

proof fn lemma_found_at(windows: Seq<Window>, i: int, id: u64)
    requires
        0 <= i < windows.len(),
        windows[i].id == id,
        forall|j: int| 0 <= j < i ==> (#[trigger] windows[j]).id != id,
    ensures
        crate::comp::find(windows, id) == Some(i),
    decreases windows.len(),
{
    let rest = windows.drop_last();
    if i < rest.len() {
        lemma_found_at(rest, i, id);
    } else {
        lemma_not_found(rest, id);
    }
}

proof fn lemma_not_found(windows: Seq<Window>, id: u64)
    requires
        forall|j: int| 0 <= j < windows.len() ==> (#[trigger] windows[j]).id != id,
    ensures
        crate::comp::find(windows, id) is None,
    decreases windows.len(),
{
    if windows.len() > 0 {
        let rest = windows.drop_last();
        assert forall|j: int| 0 <= j < rest.len() implies (#[trigger] rest[j]).id != id by {
            assert(windows[j].id != id);
        }
        lemma_not_found(rest, id);
        assert(windows[windows.len() - 1].id != id);
    }
}

/// Law: an outcome is what it stands for: the same warnings in the same order,
/// or the same reason for a refusal.
pub proof fn law_outcomes_keep_their_texts(
    r: Result<Vec<String>, String>,
    v: Result<Seq<Seq<char>>, Seq<char>>,
)
    ensures
        crate::comp::outcome_is(r, v) <==> match (r, v) {
            (Ok(given), Ok(meant)) => given@.len() == meant.len() && forall|i: int|
                0 <= i < meant.len() ==> (#[trigger] given@[i])@ == meant[i],
            (Err(given), Err(meant)) => given@ == meant,
            _ => false,
        },
{
    if let (Ok(given), Ok(meant)) = (r, v) {
        let texts = crate::text::texts(given@);
        if given@.len() == meant.len() && forall|i: int|
            0 <= i < meant.len() ==> (#[trigger] given@[i])@ == meant[i] {
            assert(texts =~= meant);
        }
        if texts == meant {
            assert forall|i: int| 0 <= i < meant.len() implies (#[trigger] given@[i])@
                == meant[i] by {
                assert(texts[i] == given@[i]@);
            }
        }
    }
}

/// Law: a window is found where it stands in the stack, and an id that no
/// window has is not found.
pub proof fn law_windows_are_found_by_their_id(windows: Seq<Window>, i: int, id: u64)
    ensures
        0 <= i < windows.len() && windows[i].id == id && (forall|j: int|
            0 <= j < i ==> (#[trigger] windows[j]).id != id) ==> {
            &&& crate::comp::find(windows, id) == Some(i)
            &&& crate::comp::has_id(windows, id)
            &&& crate::comp::ids(windows).contains(id)
        },
        (forall|j: int| 0 <= j < windows.len() ==> (#[trigger] windows[j]).id != id) ==> {
            &&& crate::comp::find(windows, id) is None
            &&& !crate::comp::has_id(windows, id)
            &&& !crate::comp::ids(windows).contains(id)
        },
{
    if 0 <= i < windows.len() && windows[i].id == id && (forall|j: int|
        0 <= j < i ==> (#[trigger] windows[j]).id != id) {
        lemma_found_at(windows, i, id);
    }
    if forall|j: int| 0 <= j < windows.len() ==> (#[trigger] windows[j]).id != id {
        lemma_not_found(windows, id);
    }
}

/// Law: a pointer action first moves the pointer to the point that is meant,
/// and does the rest there. With both coordinates that is the point of the
/// desktop, or of the named window counted from its corner; with a window alone
/// its centre; with one coordinate alone the place of the pointer; and with
/// nothing the pointer stays. A click focuses what is under the pointer and
/// lets the button go as often as it presses it.
pub proof fn law_pointer_actions_happen_at_their_target<C>(
    state: DesktopState<C>,
    x: Option<C>,
    y: Option<C>,
    window: Option<u64>,
    i: int,
    area: Rect,
    button: MouseButton,
    double: bool,
    dx: C,
    dy: C,
    keyboard_focused: bool,
    found: Lookup,
)
    requires
        (x is Some <==> y is Some) ==> (window matches Some(id) ==> {
            &&& 0 <= i < state.windows@.len()
            &&& state.windows@[i].id == id
            &&& forall|j: int| 0 <= j < i ==> (#[trigger] state.windows@[j]).id != id
            &&& state.windows@[i].geometry == Some(area)
        }),
    ensures
        ({
            let start: Seq<Step<C>> = match (x, y, window) {
                (Some(x), Some(y), None) => seq![Step::Motion { to: Aim::At { x, y } }],
                (Some(x), Some(y), Some(_)) => seq![
                    Step::Motion { to: Aim::Within { left: area.x, top: area.y, x, y } },
                ],
                (None, None, None) => seq![],
                (None, None, Some(_)) => seq![Step::Motion { to: Aim::Center { area } }],
                _ => seq![
                    Step::Motion { to: Aim::At { x: state.pointer_x, y: state.pointer_y } },
                ],
            };
            let code: u32 = match button {
                MouseButton::Left => 0x110,
                MouseButton::Right => 0x111,
                MouseButton::Middle => 0x112,
            };
            let down = Step::<C>::Button { code, pressed: true };
            let up = Step::<C>::Button { code, pressed: false };
            let click = state.performed(
                Action::Click { button, x, y, window, double },
                keyboard_focused,
                found,
            );
            let press = state.performed(
                Action::MouseDown { button, x, y, window },
                keyboard_focused,
                found,
            );
            let release = state.performed(
                Action::MouseUp { button, x, y, window },
                keyboard_focused,
                found,
            );
            let scroll = state.performed(
                Action::Scroll { dx, dy, x, y, window },
                keyboard_focused,
                found,
            );
            let unchanged = Scene { windows: state.windows@, focused: state.focused_window };
            let fine = Ok::<Seq<Seq<char>>, Seq<char>>(Seq::empty());
            &&& !double ==> click.steps == start + seq![Step::FocusUnderPointer, down, up]
            &&& double ==> click.steps == start + seq![
                Step::FocusUnderPointer,
                down,
                up,
                down,
                up,
            ]
            &&& press.steps == start + seq![Step::FocusUnderPointer, down]
            &&& release.steps == start + seq![up]
            &&& scroll.steps == start + seq![Step::Axis { dx, dy }]
            &&& click.scene == unchanged && click.outcome == fine
            &&& press.scene == unchanged && press.outcome == fine
            &&& release.scene == unchanged && release.outcome == fine
            &&& scroll.scene == unchanged && scroll.outcome == fine
            &&& x is Some && y is Some ==> {
                let go = state.performed(
                    Action::MouseMove { x: x->Some_0, y: y->Some_0, window },
                    keyboard_focused,
                    found,
                );
                &&& go.steps == start
                &&& go.scene == unchanged
                &&& go.outcome == fine
            }
        }),
{
    if window is Some && (x is Some <==> y is Some) {
        lemma_found_at(state.windows@, i, window->Some_0);
    }
    let click = state.performed(
        Action::Click { button, x, y, window, double },
        keyboard_focused,
        found,
    );
    if let Ok(aim) = state.target(x, y, window) {
        let code = button.evdev_code();
        let down = Step::<C>::Button { code, pressed: true };
        let up = Step::<C>::Button { code, pressed: false };
        let start = crate::comp::motion(aim);
        if double {
            assert(click.steps =~= start + seq![Step::FocusUnderPointer, down, up, down, up]);
        } else {
            assert(click.steps =~= start + seq![Step::FocusUnderPointer, down, up]);
        }
    }
}

/// Law: a pointer action at a window that is not there, or that is nowhere on
/// the screen, is refused with the reason and does nothing.
pub proof fn law_pointer_actions_need_a_mapped_window<C>(
    state: DesktopState<C>,
    x: Option<C>,
    y: Option<C>,
    id: u64,
    i: int,
    button: MouseButton,
    double: bool,
    dx: C,
    dy: C,
    keyboard_focused: bool,
    found: Lookup,
)
    requires
        x is Some <==> y is Some,
        ({
            ||| forall|j: int| 0 <= j < state.windows@.len() ==> (#[trigger] state.windows@[j]).id != id
            ||| {
                &&& 0 <= i < state.windows@.len()
                &&& state.windows@[i].id == id
                &&& forall|j: int| 0 <= j < i ==> (#[trigger] state.windows@[j]).id != id
                &&& state.windows@[i].geometry is None
            }
        }),
    ensures
        ({
            let window = Some(id);
            let text = if forall|j: int|
                0 <= j < state.windows@.len() ==> (#[trigger] state.windows@[j]).id != id {
                "no window with id "@ + crate::text::decimal(id as nat)
            } else {
                "window "@ + crate::text::decimal(id as nat) + " is not mapped"@
            };
            let click = state.performed(
                Action::Click { button, x, y, window, double },
                keyboard_focused,
                found,
            );
            let press = state.performed(
                Action::MouseDown { button, x, y, window },
                keyboard_focused,
                found,
            );
            let release = state.performed(
                Action::MouseUp { button, x, y, window },
                keyboard_focused,
                found,
            );
            let scroll = state.performed(
                Action::Scroll { dx, dy, x, y, window },
                keyboard_focused,
                found,
            );
            &&& click.outcome == Err::<Seq<Seq<char>>, Seq<char>>(text) && click.steps.len() == 0
            &&& press.outcome == Err::<Seq<Seq<char>>, Seq<char>>(text) && press.steps.len() == 0
            &&& release.outcome == Err::<Seq<Seq<char>>, Seq<char>>(text) && release.steps.len() == 0
            &&& scroll.outcome == Err::<Seq<Seq<char>>, Seq<char>>(text) && scroll.steps.len() == 0
            &&& x is Some ==> {
                let go = state.performed(
                    Action::MouseMove { x: x->Some_0, y: y->Some_0, window },
                    keyboard_focused,
                    found,
                );
                go.outcome == Err::<Seq<Seq<char>>, Seq<char>>(text) && go.steps.len() == 0
            }
        }),
{
    if forall|j: int| 0 <= j < state.windows@.len() ==> (#[trigger] state.windows@[j]).id != id {
        lemma_not_found(state.windows@, id);
    } else {
        lemma_found_at(state.windows@, i, id);
    }
}

/// Law: to focus a window is to raise it, to show it and no other as active,
/// and to give it the keyboard, in this order.
pub proof fn law_focusing_takes_these_steps<C>(windows: Seq<Window>, id: u64, k: int)
    ensures
        ({
            let steps = crate::comp::focus_steps::<C>(windows, id);
            &&& steps.len() == windows.len() + 2
            &&& steps[0] == Step::<C>::Raise { id }
            &&& 0 <= k < windows.len() ==> steps[1 + k] == (Step::<C>::Activate {
                id: windows[k].id,
                active: windows[k].id == id,
            })
            &&& steps[(windows.len() + 1) as int] == Step::<C>::KeyboardFocus { id }
        }),
{
}

/// Law: focusing a window puts it on top of all others, which keep their
/// order; an id without a window changes nothing and takes no steps.
pub proof fn law_focusing_raises_one_window<C>(scene: Scene, i: int, id: u64, k: int)
    ensures
        0 <= i < scene.windows.len() && scene.windows[i].id == id && (forall|j: int|
            0 <= j < i ==> (#[trigger] scene.windows[j]).id != id) ==> {
            let after = scene.focus(id);
            &&& after.focused == Some(id)
            &&& after.windows.len() == scene.windows.len()
            &&& after.windows[scene.windows.len() - 1] == scene.windows[i]
            &&& 0 <= k < i ==> after.windows[k] == scene.windows[k]
            &&& i <= k < scene.windows.len() - 1 ==> after.windows[k] == scene.windows[k + 1]
            &&& scene.focusing::<C>(id) == crate::comp::focus_steps::<C>(after.windows, id)
        },
        (forall|j: int| 0 <= j < scene.windows.len() ==> (#[trigger] scene.windows[j]).id != id)
            ==> scene.focus(id) == scene && scene.focusing::<C>(id).len() == 0,
{
    if 0 <= i < scene.windows.len() && scene.windows[i].id == id && (forall|j: int|
        0 <= j < i ==> (#[trigger] scene.windows[j]).id != id) {
        lemma_found_at(scene.windows, i, id);
    }
    if forall|j: int| 0 <= j < scene.windows.len() ==> (#[trigger] scene.windows[j]).id != id {
        lemma_not_found(scene.windows, id);
    }
}

/// Law: keyboard input that goes nowhere is given to the topmost window, which
/// is focused for that; where it goes somewhere, or there is no window, nothing
/// is done.
pub proof fn law_keyboard_goes_to_the_topmost_window<C>(scene: Scene, keyboard_focused: bool)
    requires
        forall|i: int, j: int|
            0 <= i < j < scene.windows.len() ==> scene.windows[i].id != scene.windows[j].id,
    ensures
        keyboard_focused || scene.windows.len() == 0 ==> {
            &&& scene.with_keyboard(keyboard_focused) == scene
            &&& scene.keyboard_steps::<C>(keyboard_focused).len() == 0
        },
        !keyboard_focused && scene.windows.len() > 0 ==> {
            let top = scene.windows[scene.windows.len() - 1].id;
            &&& scene.with_keyboard(keyboard_focused).windows == scene.windows
            &&& scene.with_keyboard(keyboard_focused).focused == Some(top)
            &&& scene.keyboard_steps::<C>(keyboard_focused) == crate::comp::focus_steps::<C>(
                scene.windows,
                top,
            )
        },
{
    let n = scene.windows.len();
    if !keyboard_focused && n > 0 {
        lemma_found_at(scene.windows, n - 1, scene.windows[n - 1].id);
        assert(scene.with_keyboard(false).windows =~= scene.windows);
    }
}

/// Law: a window action asks exactly the window of this id: to come to the
/// front, to close, or to take a size of at least one pixel each way.
pub proof fn law_window_actions_address_their_window<C>(
    state: DesktopState<C>,
    i: int,
    id: u64,
    width: i32,
    height: i32,
    keyboard_focused: bool,
    found: Lookup,
)
    requires
        0 <= i < state.windows@.len(),
        state.windows@[i].id == id,
        forall|j: int| 0 <= j < i ==> (#[trigger] state.windows@[j]).id != id,
    ensures
        ({
            let unchanged = Scene { windows: state.windows@, focused: state.focused_window };
            let fine = Ok::<Seq<Seq<char>>, Seq<char>>(Seq::empty());
            let raised = state.windows@.remove(i).push(state.windows@[i]);
            let focus = state.performed(Action::FocusWindow { id }, keyboard_focused, found);
            let close = state.performed(Action::CloseWindow { id }, keyboard_focused, found);
            let resize = state.performed(
                Action::ResizeWindow { id, width, height },
                keyboard_focused,
                found,
            );
            let w: i32 = if width >= 1 { width } else { 1 };
            let h: i32 = if height >= 1 { height } else { 1 };
            &&& focus.scene == (Scene { windows: raised, focused: Some(id) })
            &&& focus.steps == crate::comp::focus_steps::<C>(raised, id)
            &&& focus.outcome == fine
            &&& close.scene == unchanged
            &&& close.steps == seq![Step::<C>::Close { id }]
            &&& close.outcome == fine
            &&& resize.scene == unchanged
            &&& resize.steps == seq![Step::<C>::Configure { id, width: w, height: h }]
            &&& resize.outcome == fine
        }),
{
    lemma_found_at(state.windows@, i, id);
}

/// Law: a window action on an id that no window has is refused with the id and
/// does nothing.
pub proof fn law_window_actions_need_their_window<C>(
    state: DesktopState<C>,
    id: u64,
    width: i32,
    height: i32,
    keyboard_focused: bool,
    found: Lookup,
)
    requires
        forall|j: int| 0 <= j < state.windows@.len() ==> (#[trigger] state.windows@[j]).id != id,
    ensures
        ({
            let unchanged = Scene { windows: state.windows@, focused: state.focused_window };
            let refusal = Err::<Seq<Seq<char>>, Seq<char>>(
                "no window with id "@ + crate::text::decimal(id as nat),
            );
            let focus = state.performed(Action::FocusWindow { id }, keyboard_focused, found);
            let close = state.performed(Action::CloseWindow { id }, keyboard_focused, found);
            let resize = state.performed(
                Action::ResizeWindow { id, width, height },
                keyboard_focused,
                found,
            );
            &&& focus.scene == unchanged && focus.steps.len() == 0 && focus.outcome == refusal
            &&& close.scene == unchanged && close.steps.len() == 0 && close.outcome == refusal
            &&& resize.scene == unchanged && resize.steps.len() == 0 && resize.outcome == refusal
        }),
{
    lemma_not_found(state.windows@, id);
}

/// Law: a tap presses the key and lets it go, with left Shift held around it
/// exactly if the key press says so.
pub proof fn law_taps_hold_shift_around_the_key(press: KeyPress)
    ensures
        press.shift ==> crate::comp::tap_events(press) == seq![
            KeyEvent { keycode: 50, pressed: true },
            KeyEvent { keycode: press.keycode, pressed: true },
            KeyEvent { keycode: press.keycode, pressed: false },
            KeyEvent { keycode: 50, pressed: false },
        ],
        !press.shift ==> crate::comp::tap_events(press) == seq![
            KeyEvent { keycode: press.keycode, pressed: true },
            KeyEvent { keycode: press.keycode, pressed: false },
        ],
{
}

/// Law: a text is typed character by character, whatever came before: one more
/// character with a key adds one tap of that key, and one without a key adds a
/// warning that names it and no tap.
pub proof fn law_each_character_adds_its_tap<C>(
    state: DesktopState<C>,
    text: String,
    longer: String,
    c: char,
    keyboard_focused: bool,
    found: Lookup,
)
    requires
        longer@ == text@.push(c),
    ensures
        ({
            let before = state.performed(Action::TypeText { text }, keyboard_focused, found);
            let after = state.performed(
                Action::TypeText { text: longer },
                keyboard_focused,
                found,
            );
            &&& after.scene == before.scene
            &&& before.outcome is Ok
            &&& match state.keymapper.char_press(c) {
                Some(press) => {
                    &&& after.steps == before.steps.push(Step::Taps { press, times: 1 })
                    &&& after.outcome == before.outcome
                },
                None => {
                    &&& after.steps == before.steps
                    &&& after.outcome == Ok::<Seq<Seq<char>>, Seq<char>>(
                        before.outcome->Ok_0.push(
                            "character "@ + crate::text::char_debug(c)
                                + " cannot be typed with the us keymap; skipped"@,
                        ),
                    )
                },
            }
        }),
{
    assert(longer@.drop_last() =~= text@);
    let focus = state.scene().keyboard_steps::<C>(keyboard_focused);
    let typed = crate::comp::typing::<C>(state.keymapper, text@);
    let more = crate::comp::typing::<C>(state.keymapper, longer@);
    if let Some(press) = state.keymapper.char_press(c) {
        assert(focus + more =~= (focus + typed).push(Step::Taps { press, times: 1 }));
    }
}

/// Law: typing nothing and a refused key only see to it that keyboard input
/// goes somewhere, and every text and every key do so first.
pub proof fn law_keyboard_input_starts_with_a_focused_window<C>(
    state: DesktopState<C>,
    nothing: String,
    text: String,
    combo: String,
    repeat: u32,
    keyboard_focused: bool,
    found: Lookup,
    k: int,
)
    requires
        nothing@.len() == 0,
    ensures
        ({
            let scene = Scene { windows: state.windows@, focused: state.focused_window };
            let focus = scene.keyboard_steps::<C>(keyboard_focused);
            let none = state.performed(
                Action::TypeText { text: nothing },
                keyboard_focused,
                found,
            );
            let some = state.performed(Action::TypeText { text }, keyboard_focused, found);
            let key = state.performed(Action::Key { combo, repeat }, keyboard_focused, found);
            &&& none.steps == focus
            &&& none.outcome == Ok::<Seq<Seq<char>>, Seq<char>>(Seq::empty())
            &&& some.steps.len() >= focus.len()
            &&& key.steps.len() >= focus.len()
            &&& 0 <= k < focus.len() ==> some.steps[k] == focus[k] && key.steps[k] == focus[k]
            &&& none.scene == scene.with_keyboard(keyboard_focused)
            &&& some.scene == none.scene
            &&& key.scene == none.scene
            &&& match state.keymapper.combo_press(combo@, found) {
                Ok(_) => key.outcome == Ok::<Seq<Seq<char>>, Seq<char>>(Seq::empty()),
                Err(text) => key.outcome == Err::<Seq<Seq<char>>, Seq<char>>(text) && key.steps
                    == focus,
            }
        }),
{
    let focus = state.scene().keyboard_steps::<C>(keyboard_focused);
    assert(focus + crate::comp::typing::<C>(state.keymapper, nothing@) =~= focus);
    assert(crate::comp::typing_warnings(state.keymapper, nothing@) =~= Seq::<Seq<char>>::empty());
}

/// Law: a combo presses its modifiers in their order, taps its key as often as
/// asked, and lets the modifiers go in reverse. The tap holds Shift if the key
/// needs it, unless the combo spells Shift out, in upper or lower case.
pub proof fn law_combos_hold_their_modifiers<C>(
    state: DesktopState<C>,
    combo: String,
    repeat: u32,
    keyboard_focused: bool,
    found: Lookup,
    codes: Seq<u32>,
    press: KeyPress,
    k: int,
)
    requires
        state.keymapper.combo_press(combo@, found) == Ok::<(Seq<u32>, KeyPress), Seq<char>>(
            (codes, press),
        ),
    ensures
        ({
            let scene = Scene { windows: state.windows@, focused: state.focused_window };
            let f = scene.keyboard_steps::<C>(keyboard_focused).len();
            let m = codes.len();
            let steps = state.performed(
                Action::Key { combo, repeat },
                keyboard_focused,
                found,
            ).steps;
            let spelled = exists|at: int|
                {
                    &&& 0 <= at
                    &&& at + 5 <= combo@.len()
                    &&& (#[trigger] combo@[at] == 's' || combo@[at] == 'S')
                    &&& (combo@[at + 1] == 'h' || combo@[at + 1] == 'H')
                    &&& (combo@[at + 2] == 'i' || combo@[at + 2] == 'I')
                    &&& (combo@[at + 3] == 'f' || combo@[at + 3] == 'F')
                    &&& (combo@[at + 4] == 't' || combo@[at + 4] == 'T')
                };
            &&& steps.len() == f + m + 1 + m
            &&& 0 <= k < m ==> steps[f + k] == (Step::<C>::Key {
                event: KeyEvent { keycode: codes[k], pressed: true },
            })
            &&& steps[(f + m) as int] == (Step::<C>::Taps {
                press: KeyPress { keycode: press.keycode, shift: press.shift && !spelled },
                times: repeat,
            })
            &&& 0 <= k < m ==> steps[f + m + 1 + k] == (Step::<C>::Key {
                event: KeyEvent { keycode: codes[m - 1 - k], pressed: false },
            })
        }),
{
    crate::keys::law_shift_is_found_in_any_case(combo@);
}

proof fn lemma_one_character_combo(keys: KeyMapper, c: char, found: Lookup)
    requires
        crate::text::trimmed(seq![c]) == seq![c],
        keys.char_press(c) is Some,
    ensures
        keys.combo_press(seq![c], found) == Ok::<(Seq<u32>, KeyPress), Seq<char>>(
            (Seq::empty(), keys.char_press(c)->Some_0),
        ),
{
    if c == '+' {
        crate::keys::law_plus_sign_is_a_key(keys, Seq::empty(), found);
    } else {
        let one = seq![c];
        let nothing = Seq::<char>::empty();
        assert(one.drop_last() =~= nothing);
        assert(crate::text::pieces(nothing, '+') == seq![nothing]);
        assert(nothing.push(c) =~= one);
        assert(crate::text::pieces(one, '+') =~= seq![one]);
        assert(crate::keys::split_parts(one) =~= seq![one]);
        assert(crate::keys::combo_parts(one).drop_last() =~= Seq::<Seq<char>>::empty());
    }
}

/// Law: a combo that is one character with a key presses what typing that
/// character presses, Shift included, as often as asked.
pub proof fn law_one_character_is_pressed_as_it_is_typed<C>(
    state: DesktopState<C>,
    combo: String,
    text: String,
    repeat: u32,
    keyboard_focused: bool,
    found: Lookup,
)
    requires
        combo@.len() == 1,
        text@ == combo@,
        crate::text::trimmed(combo@) == combo@,
        state.keymapper.char_press(combo@[0]) is Some,
    ensures
        ({
            let typed = state.performed(Action::TypeText { text }, keyboard_focused, found);
            let pressed = state.performed(
                Action::Key { combo, repeat },
                keyboard_focused,
                found,
            );
            let press = state.keymapper.char_press(combo@[0])->Some_0;
            &&& pressed.steps == typed.steps.drop_last().push(Step::Taps { press, times: repeat })
            &&& repeat == 1 ==> pressed.steps == typed.steps
            &&& pressed.outcome is Ok
            &&& pressed.scene == typed.scene
        }),
{
    let c = combo@[0];
    let press = state.keymapper.char_press(c)->Some_0;
    assert(combo@ =~= seq![c]);
    lemma_one_character_combo(state.keymapper, c, found);
    crate::keys::law_shift_is_found_in_any_case(combo@);
    let focus = state.scene().keyboard_steps::<C>(keyboard_focused);
    let typing = crate::comp::typing::<C>(state.keymapper, text@);
    assert(text@.drop_last() =~= Seq::<char>::empty());
    assert(crate::comp::typing::<C>(state.keymapper, text@.drop_last()) =~= Seq::<
        Step<C>,
    >::empty());
    assert(typing =~= seq![Step::<C>::Taps { press, times: 1 }]);
    assert((focus + typing).drop_last() =~= focus);
    let tap = seq![Step::<C>::Taps { press, times: repeat }];
    assert(crate::comp::combo_steps::<C>(combo@, Seq::empty(), press, repeat) =~= tap);
    assert(focus + tap =~= focus.push(Step::Taps { press, times: repeat }));
}

/// Law: the key events of a text are those of its characters, one after the
/// other: each character with a key presses and releases that key once, with
/// Shift held around it if it needs Shift.
pub proof fn law_typed_keys_are_those_of_the_characters<C>(keys: KeyMapper, text: Seq<char>)
    requires
        text.len() > 0,
    ensures
        ({
            let before = crate::comp::laws::key_events(
                crate::comp::typing::<C>(keys, text.drop_last()),
            );
            let all = crate::comp::laws::key_events(crate::comp::typing::<C>(keys, text));
            match keys.char_press(text.last()) {
                Some(press) => all == before + if press.shift {
                    seq![
                        KeyEvent { keycode: 50, pressed: true },
                        KeyEvent { keycode: press.keycode, pressed: true },
                        KeyEvent { keycode: press.keycode, pressed: false },
                        KeyEvent { keycode: 50, pressed: false },
                    ]
                } else {
                    seq![
                        KeyEvent { keycode: press.keycode, pressed: true },
                        KeyEvent { keycode: press.keycode, pressed: false },
                    ]
                },
                None => all == before,
            }
        }),
{
    if let Some(press) = keys.char_press(text.last()) {
        let once = crate::comp::tap_events(press);
        let before = crate::comp::typing::<C>(keys, text.drop_last());
        let all = crate::comp::typing::<C>(keys, text);
        assert(all.drop_last() =~= before);
        assert(crate::comp::laws::repeated(once, 0) =~= Seq::<KeyEvent>::empty());
        assert(crate::comp::laws::repeated(once, 1) =~= once);
    }
}

/// Law: coordinates mean a point of the desktop, or of the named window counted
/// from its corner; where one is missing they mean the place of the pointer,
/// whatever window is named. Where both are missing a pointer action goes to
/// the centre of the named window, or nowhere.
pub proof fn law_coordinates_mean_these_points<C>(
    state: DesktopState<C>,
    x: Option<C>,
    y: Option<C>,
    id: u64,
    i: int,
    area: Rect,
)
    requires
        0 <= i < state.windows@.len(),
        state.windows@[i].id == id,
        forall|j: int| 0 <= j < i ==> (#[trigger] state.windows@[j]).id != id,
        state.windows@[i].geometry == Some(area),
    ensures
        ({
            let pointer = Aim::At { x: state.pointer_x, y: state.pointer_y };
            &&& x is Some && y is Some ==> {
                let global = Aim::At { x: x->Some_0, y: y->Some_0 };
                let inside = Aim::Within {
                    left: area.x,
                    top: area.y,
                    x: x->Some_0,
                    y: y->Some_0,
                };
                &&& state.point(x, y, None) == Ok::<Aim<C>, Seq<char>>(global)
                &&& state.point(x, y, Some(id)) == Ok::<Aim<C>, Seq<char>>(inside)
                &&& state.target(x, y, None) == Ok::<Option<Aim<C>>, Seq<char>>(Some(global))
                &&& state.target(x, y, Some(id)) == Ok::<Option<Aim<C>>, Seq<char>>(Some(inside))
            }
            &&& x is None || y is None ==> {
                &&& state.point(x, y, None) == Ok::<Aim<C>, Seq<char>>(pointer)
                &&& state.point(x, y, Some(id)) == Ok::<Aim<C>, Seq<char>>(pointer)
            }
            &&& x is None && y is None ==> {
                &&& state.target(x, y, None) == Ok::<Option<Aim<C>>, Seq<char>>(None)
                &&& state.target(x, y, Some(id)) == Ok::<Option<Aim<C>>, Seq<char>>(
                    Some(Aim::Center { area }),
                )
            }
            &&& (x is None) != (y is None) ==> {
                &&& state.target(x, y, None) == Ok::<Option<Aim<C>>, Seq<char>>(Some(pointer))
                &&& state.target(x, y, Some(id)) == Ok::<Option<Aim<C>>, Seq<char>>(Some(pointer))
            }
            &&& state.area(id) == Ok::<Rect, Seq<char>>(area)
        }),
{
    lemma_found_at(state.windows@, i, id);
}

/// Law: a window without a place has no points: neither by coordinates nor by
/// its centre. The reason says whether it is unknown or not mapped.
pub proof fn law_windows_without_a_place_have_no_points<C>(
    state: DesktopState<C>,
    x: C,
    y: C,
    id: u64,
    i: int,
)
    ensures
        ({
            let unknown = forall|j: int|
                0 <= j < state.windows@.len() ==> (#[trigger] state.windows@[j]).id != id;
            let unmapped = {
                &&& 0 <= i < state.windows@.len()
                &&& state.windows@[i].id == id
                &&& forall|j: int| 0 <= j < i ==> (#[trigger] state.windows@[j]).id != id
                &&& state.windows@[i].geometry is None
            };
            let text = if unknown {
                "no window with id "@ + crate::text::decimal(id as nat)
            } else {
                "window "@ + crate::text::decimal(id as nat) + " is not mapped"@
            };
            unknown || unmapped ==> {
                &&& state.area(id) == Err::<Rect, Seq<char>>(text)
                &&& state.point(Some(x), Some(y), Some(id)) == Err::<Aim<C>, Seq<char>>(text)
                &&& state.target(Some(x), Some(y), Some(id)) == Err::<Option<Aim<C>>, Seq<char>>(
                    text,
                )
                &&& state.target(None, None, Some(id)) == Err::<Option<Aim<C>>, Seq<char>>(text)
            }
        }),
{
    if forall|j: int| 0 <= j < state.windows@.len() ==> (#[trigger] state.windows@[j]).id != id {
        lemma_not_found(state.windows@, id);
    } else if 0 <= i < state.windows@.len() && state.windows@[i].id == id && (forall|j: int|
        0 <= j < i ==> (#[trigger] state.windows@[j]).id != id) {
        lemma_found_at(state.windows@, i, id);
    }
}

/// Law: the scene is the stack of the windows and the focus.
pub proof fn law_scene_is_stack_and_focus<C>(state: DesktopState<C>)
    ensures
        state.scene().windows == state.windows@,
        state.scene().focused == state.focused_window,
{
}

} // verus!
