//! What the desktop promises as a whole.

use vstd::prelude::*;

use crate::comp::{DesktopState, KeyEvent, Scene, Step};
use crate::ipc::{Action, MouseButton};
use crate::keys::{KeyMapper, KeyPress, Lookup};

verus! {

/// Law: the id of the next window is not in use.
pub proof fn law_next_id_is_unused<C>(state: DesktopState<C>)
    requires
        state.wf(),
    ensures
        !crate::comp::has_id(state.windows@, state.next_window_id),
{
    if crate::comp::has_id(state.windows@, state.next_window_id) {
        let i = choose|i: int|
            0 <= i < state.windows@.len() && (#[trigger] state.windows@[i]).id
                == state.next_window_id;
        assert(state.windows@[i].id < state.next_window_id);
    }
}

/// Whether the desktop went through these states, in each step either keeping
/// the next id or handing it out to a new window.
pub open spec fn is_history<C>(states: Seq<DesktopState<C>>) -> bool {
    forall|k: int|
        0 <= k < states.len() - 1 ==> {
            ||| (#[trigger] states[k + 1]).next_window_id == states[k].next_window_id
            ||| states[k + 1].next_window_id == states[k].next_window_id + 1
        }
}

/// Law: ids are never used again: a window gets a higher id than every window
/// that appeared before it, also than those that are gone.
pub proof fn law_ids_are_never_reused<C>(states: Seq<DesktopState<C>>, i: int, j: int)
    requires
        is_history(states),
        0 <= i < j < states.len(),
        states[i + 1].next_window_id == states[i].next_window_id + 1,
    ensures
        states[i].next_window_id < states[j].next_window_id,
    decreases j,
{
    if i + 1 < j {
        law_ids_are_never_reused(states, i, j - 1);
        assert(states[(j - 1) + 1].next_window_id >= states[j - 1].next_window_id);
    }
}

/// Law: focusing puts a window on top and keeps the order of all others; an
/// unknown window changes nothing.
pub proof fn law_focused_window_is_on_top(scene: Scene, id: u64)
    ensures
        match crate::comp::find(scene.windows, id) {
            Some(i) => {
                let after = scene.focus(id);
                &&& after.focused == Some(id)
                &&& after.windows.last() == scene.windows[i]
                &&& after.windows.last().id == id
                &&& after.windows.drop_last() == scene.windows.remove(i)
            },
            None => scene.focus(id) == scene && !crate::comp::has_id(scene.windows, id),
        },
{
    crate::comp::lemma_find(scene.windows, id);
    if let Some(i) = crate::comp::find(scene.windows, id) {
        assert(scene.focus(id).windows.drop_last() =~= scene.windows.remove(i));
    }
}

proof fn lemma_find_last(windows: Seq<crate::comp::Window>)
    requires
        windows.len() > 0,
        forall|i: int, j: int| 0 <= i < j < windows.len() ==> windows[i].id != windows[j].id,
    ensures
        crate::comp::find(windows, windows.last().id) == Some(windows.len() - 1),
{
    let id = windows.last().id;
    crate::comp::lemma_find(windows, id);
    crate::comp::lemma_find(windows.drop_last(), id);
}

/// Law: when keyboard input goes nowhere, it is given to the topmost window
/// without changing the stacking order.
pub proof fn law_topmost_window_gets_the_keyboard<C>(state: DesktopState<C>)
    requires
        state.wf(),
    ensures
        ({
            let after = state.scene().with_keyboard(false);
            &&& after.windows == state.windows@
            &&& state.windows@.len() > 0 ==> after.focused == Some(state.windows@.last().id)
            &&& state.windows@.len() == 0 ==> after.focused == state.focused_window
        }),
{
    let w = state.windows@;
    if w.len() > 0 {
        lemma_find_last(w);
        assert(crate::comp::raised(w, w.len() - 1) =~= w);
    }
}

/// How often a key goes down more than up.
pub open spec fn balance(events: Seq<KeyEvent>, keycode: u32) -> int
    decreases events.len(),
{
    if events.len() == 0 {
        0
    } else {
        balance(events.drop_last(), keycode) + if events.last().keycode != keycode {
            0int
        } else if events.last().pressed {
            1
        } else {
            -1
        }
    }
}

/// Events that are sent several times.
pub open spec fn repeated(events: Seq<KeyEvent>, times: nat) -> Seq<KeyEvent>
    decreases times,
{
    if times == 0 {
        Seq::empty()
    } else {
        repeated(events, (times - 1) as nat) + events
    }
}

/// The key events of a step.
pub open spec fn step_events<C>(step: Step<C>) -> Seq<KeyEvent> {
    match step {
        Step::Key { event } => seq![event],
        Step::Taps { press, times } => repeated(crate::comp::tap_events(press), times as nat),
        _ => Seq::empty(),
    }
}

/// The key events of steps, in order.
pub open spec fn key_events<C>(steps: Seq<Step<C>>) -> Seq<KeyEvent>
    decreases steps.len(),
{
    if steps.len() == 0 {
        Seq::empty()
    } else {
        key_events(steps.drop_last()) + step_events(steps.last())
    }
}

proof fn lemma_balance_sum(a: Seq<KeyEvent>, b: Seq<KeyEvent>, code: u32)
    ensures
        balance(a + b, code) == balance(a, code) + balance(b, code),
    decreases b.len(),
{
    if b.len() == 0 {
        assert(a + b =~= a);
    } else {
        assert((a + b).drop_last() =~= a + b.drop_last());
        lemma_balance_sum(a, b.drop_last(), code);
    }
}

proof fn lemma_tap_balance(press: KeyPress, times: nat, code: u32)
    ensures
        balance(repeated(crate::comp::tap_events(press), times), code) == 0,
    decreases times,
{
    let once = crate::comp::tap_events(press);
    reveal_with_fuel(balance, 5);
    if press.shift {
        let a = once.drop_last();
        let b = a.drop_last();
        let c = b.drop_last();
        assert(c.drop_last().len() == 0);
    } else {
        let a = once.drop_last();
        assert(a.drop_last().len() == 0);
    }
    assert(balance(once, code) == 0);
    if times > 0 {
        lemma_tap_balance(press, (times - 1) as nat, code);
        lemma_balance_sum(repeated(once, (times - 1) as nat), once, code);
    }
}

proof fn lemma_events_sum<C>(a: Seq<Step<C>>, b: Seq<Step<C>>)
    ensures
        key_events(a + b) == key_events(a) + key_events(b),
    decreases b.len(),
{
    if b.len() == 0 {
        assert(a + b =~= a);
        assert(key_events(a) + key_events(b) =~= key_events(a));
    } else {
        assert((a + b).drop_last() =~= a + b.drop_last());
        lemma_events_sum(a, b.drop_last());
        assert(key_events(a + b) =~= key_events(a) + key_events(b));
    }
}

/// Steps that send no key events.
spec fn keyless<C>(steps: Seq<Step<C>>) -> bool {
    forall|i: int| 0 <= i < steps.len() ==> step_events(#[trigger] steps[i]).len() == 0
}

proof fn lemma_keyless<C>(steps: Seq<Step<C>>)
    requires
        keyless(steps),
    ensures
        key_events(steps) == Seq::<KeyEvent>::empty(),
    decreases steps.len(),
{
    if steps.len() > 0 {
        assert(step_events(steps[steps.len() - 1]).len() == 0);
        assert(keyless(steps.drop_last())) by {
            assert forall|i: int| 0 <= i < steps.drop_last().len() implies step_events(
                #[trigger] steps.drop_last()[i],
            ).len() == 0 by {
                assert(steps[i] == steps.drop_last()[i]);
            }
        }
        lemma_keyless(steps.drop_last());
        assert(key_events(steps) =~= Seq::<KeyEvent>::empty());
    }
}

proof fn lemma_typing_balance<C>(keys: KeyMapper, text: Seq<char>, code: u32)
    ensures
        balance(key_events(crate::comp::typing::<C>(keys, text)), code) == 0,
    decreases text.len(),
{
    if text.len() > 0 {
        lemma_typing_balance::<C>(keys, text.drop_last(), code);
        let before = crate::comp::typing::<C>(keys, text.drop_last());
        let all = crate::comp::typing::<C>(keys, text);
        if let Some(press) = keys.char_press(text.last()) {
            assert(all.drop_last() =~= before);
            lemma_tap_balance(press, 1, code);
            lemma_balance_sum(key_events(before), step_events(all.last()), code);
        }
    }
}

/// How often a key is among these.
spec fn count(codes: Seq<u32>, code: u32) -> int
    decreases codes.len(),
{
    if codes.len() == 0 {
        0
    } else {
        count(codes.drop_last(), code) + if codes.last() == code {
            1int
        } else {
            0
        }
    }
}

proof fn lemma_count_front(codes: Seq<u32>, code: u32)
    requires
        codes.len() > 0,
    ensures
        count(codes, code) == count(codes.drop_first(), code) + if codes[0] == code {
            1int
        } else {
            0
        },
    decreases codes.len(),
{
    if codes.len() > 1 {
        lemma_count_front(codes.drop_last(), code);
        assert(codes.drop_last().drop_first() =~= codes.drop_first().drop_last());
    } else {
        assert(codes.drop_first() =~= codes.drop_last());
    }
}

proof fn lemma_count_reverse(codes: Seq<u32>, code: u32)
    ensures
        count(codes.reverse(), code) == count(codes, code),
    decreases codes.len(),
{
    if codes.len() > 0 {
        let rev = codes.reverse();
        lemma_count_reverse(codes.drop_last(), code);
        lemma_count_front(rev, code);
        assert(rev.drop_first() =~= codes.drop_last().reverse());
        assert(rev[0] == codes.last());
    } else {
        assert(codes.reverse() =~= codes);
    }
}

proof fn lemma_key_steps_balance<C>(codes: Seq<u32>, pressed: bool, code: u32)
    ensures
        balance(key_events(crate::comp::key_steps::<C>(codes, pressed)), code) == if pressed {
            count(codes, code)
        } else {
            -count(codes, code)
        },
    decreases codes.len(),
{
    let steps = crate::comp::key_steps::<C>(codes, pressed);
    if codes.len() > 0 {
        lemma_key_steps_balance::<C>(codes.drop_last(), pressed, code);
        assert(steps.drop_last() =~= crate::comp::key_steps::<C>(codes.drop_last(), pressed));
        let event = step_events(steps.last());
        assert(event.drop_last() =~= Seq::<KeyEvent>::empty());
        assert(balance(event.drop_last(), code) == 0);
        lemma_balance_sum(key_events(steps.drop_last()), event, code);
    }
}

proof fn lemma_combo_balance<C>(
    combo: Seq<char>,
    codes: Seq<u32>,
    press: KeyPress,
    repeat: u32,
    code: u32,
)
    ensures
        balance(
            key_events(crate::comp::combo_steps::<C>(combo, codes, press, repeat)),
            code,
        ) == 0,
{
    let down = crate::comp::key_steps::<C>(codes, true);
    let up = crate::comp::key_steps::<C>(codes.reverse(), false);
    let tap = KeyPress {
        keycode: press.keycode,
        shift: press.shift && !crate::keys::mentions_shift(combo),
    };
    let middle = seq![Step::<C>::Taps { press: tap, times: repeat }];
    lemma_events_sum(down + middle, up);
    lemma_events_sum(down, middle);
    lemma_balance_sum(key_events(down + middle), key_events(up), code);
    lemma_balance_sum(key_events(down), key_events(middle), code);
    assert(middle.drop_last().len() == 0);
    assert(key_events(middle.drop_last()) == Seq::<KeyEvent>::empty());
    assert(key_events(middle) =~= step_events(middle.last()));
    lemma_tap_balance(tap, repeat as nat, code);
    lemma_key_steps_balance::<C>(codes, true, code);
    lemma_key_steps_balance::<C>(codes.reverse(), false, code);
    lemma_count_reverse(codes, code);
}

proof fn lemma_focusing_is_keyless<C>(scene: Scene, id: u64)
    ensures
        keyless(scene.focusing::<C>(id)),
{
}

/// Law: no action leaves a key held down: every key that it presses it also
/// releases.
pub proof fn law_no_key_stays_held<C>(
    state: DesktopState<C>,
    action: Action<C>,
    keyboard_focused: bool,
    found: Lookup,
    keycode: u32,
)
    ensures
        balance(
            key_events(state.performed(action, keyboard_focused, found).steps),
            keycode,
        ) == 0,
{
    let steps = state.performed(action, keyboard_focused, found).steps;
    let focus = state.scene().keyboard_steps::<C>(keyboard_focused);
    assert(keyless(focus)) by {
        if let Some(id) = state.scene().default_focus(keyboard_focused) {
            lemma_focusing_is_keyless::<C>(state.scene(), id);
        }
    }
    lemma_keyless(focus);
    match action {
        Action::TypeText { text } => {
            let typed = crate::comp::typing::<C>(state.keymapper, text@);
            lemma_events_sum(focus, typed);
            lemma_typing_balance::<C>(state.keymapper, text@, keycode);
            assert(key_events(steps) =~= key_events(typed));
        },
        Action::Key { combo, repeat } => {
            if let Ok((codes, press)) = state.keymapper.combo_press(combo@, found) {
                let pressed = crate::comp::combo_steps::<C>(combo@, codes, press, repeat);
                lemma_events_sum(focus, pressed);
                lemma_combo_balance::<C>(combo@, codes, press, repeat, keycode);
                assert(key_events(steps) =~= key_events(pressed));
            }
        },
        Action::FocusWindow { id } => {
            lemma_focusing_is_keyless::<C>(state.scene(), id);
            lemma_keyless(steps);
        },
        _ => {
            assert(keyless(steps));
            lemma_keyless(steps);
        },
    }
}

/// How often a key goes down.
pub open spec fn presses(events: Seq<KeyEvent>, keycode: u32) -> int
    decreases events.len(),
{
    if events.len() == 0 {
        0
    } else {
        presses(events.drop_last(), keycode) + if events.last() == (KeyEvent {
            keycode,
            pressed: true,
        }) {
            1int
        } else {
            0
        }
    }
}

proof fn lemma_presses_sum(a: Seq<KeyEvent>, b: Seq<KeyEvent>, code: u32)
    ensures
        presses(a + b, code) == presses(a, code) + presses(b, code),
    decreases b.len(),
{
    if b.len() == 0 {
        assert(a + b =~= a);
    } else {
        assert((a + b).drop_last() =~= a + b.drop_last());
        lemma_presses_sum(a, b.drop_last(), code);
    }
}

proof fn lemma_tap_presses(press: KeyPress, times: nat)
    requires
        press.shift ==> press.keycode != crate::keys::KEY_LEFTSHIFT + 8,
    ensures
        presses(repeated(crate::comp::tap_events(press), times), press.keycode) == times,
    decreases times,
{
    let once = crate::comp::tap_events(press);
    let code = press.keycode;
    reveal_with_fuel(presses, 5);
    if press.shift {
        let a = once.drop_last();
        let b = a.drop_last();
        let c = b.drop_last();
        assert(c.drop_last().len() == 0);
    } else {
        let a = once.drop_last();
        assert(a.drop_last().len() == 0);
    }
    assert(presses(once, code) == 1);
    if times > 0 {
        lemma_tap_presses(press, (times - 1) as nat);
        lemma_presses_sum(repeated(once, (times - 1) as nat), once, code);
    }
}

proof fn lemma_no_presses<C>(codes: Seq<u32>, pressed: bool, code: u32)
    requires
        !pressed || !codes.contains(code),
    ensures
        presses(key_events(crate::comp::key_steps::<C>(codes, pressed)), code) == 0,
    decreases codes.len(),
{
    let steps = crate::comp::key_steps::<C>(codes, pressed);
    if codes.len() > 0 {
        let rest = codes.drop_last();
        assert(pressed ==> !rest.contains(code)) by {
            if rest.contains(code) {
                let i = rest.index_of(code);
                assert(codes[i] == code);
            }
        }
        lemma_no_presses::<C>(rest, pressed, code);
        assert(steps.drop_last() =~= crate::comp::key_steps::<C>(rest, pressed));
        let event = step_events(steps.last());
        assert(codes[codes.len() - 1] == codes.last());
        assert(event.drop_last() =~= Seq::<KeyEvent>::empty());
        assert(presses(event.drop_last(), code) == 0);
        lemma_presses_sum(key_events(steps.drop_last()), event, code);
    }
}

/// Law: a combo taps its key as often as asked, so not at all where it is to
/// be repeated 0 times. A key that is also held as a modifier goes down for
/// that reason too and is left out.
pub proof fn law_key_is_tapped_as_often_as_asked<C>(
    state: DesktopState<C>,
    action: Action<C>,
    keyboard_focused: bool,
    found: Lookup,
)
    requires
        action is Key,
        state.keymapper.combo_press(action->combo@, found) is Ok,
        ({
            let (codes, press) = state.keymapper.combo_press(action->combo@, found)->Ok_0;
            &&& !codes.contains(press.keycode)
            &&& press.shift ==> press.keycode != crate::keys::KEY_LEFTSHIFT + 8
        }),
    ensures
        presses(
            key_events(state.performed(action, keyboard_focused, found).steps),
            state.keymapper.combo_press(action->combo@, found)->Ok_0.1.keycode,
        ) == action->repeat,
{
    let combo = action->combo@;
    let repeat = action->repeat;
    let (codes, press) = state.keymapper.combo_press(combo, found)->Ok_0;
    let code = press.keycode;
    let steps = state.performed(action, keyboard_focused, found).steps;
    let focus = state.scene().keyboard_steps::<C>(keyboard_focused);
    assert(keyless(focus)) by {
        if let Some(id) = state.scene().default_focus(keyboard_focused) {
            lemma_focusing_is_keyless::<C>(state.scene(), id);
        }
    }
    lemma_keyless(focus);
    let pressed = crate::comp::combo_steps::<C>(combo, codes, press, repeat);
    lemma_events_sum(focus, pressed);
    assert(key_events(steps) =~= key_events(pressed));
    let down = crate::comp::key_steps::<C>(codes, true);
    let up = crate::comp::key_steps::<C>(codes.reverse(), false);
    let tap = KeyPress {
        keycode: code,
        shift: press.shift && !crate::keys::mentions_shift(combo),
    };
    let middle = seq![Step::<C>::Taps { press: tap, times: repeat }];
    lemma_events_sum(down + middle, up);
    lemma_events_sum(down, middle);
    lemma_presses_sum(key_events(down + middle), key_events(up), code);
    lemma_presses_sum(key_events(down), key_events(middle), code);
    assert(middle.drop_last().len() == 0);
    assert(key_events(middle.drop_last()) == Seq::<KeyEvent>::empty());
    assert(key_events(middle) =~= step_events(middle.last()));
    lemma_tap_presses(tap, repeat as nat);
    lemma_no_presses::<C>(codes, true, code);
    lemma_no_presses::<C>(codes.reverse(), false, code);
}

/// Law: every character of a typed text is either typed, with one tap, or
/// reported, with one warning.
pub proof fn law_every_character_is_typed_or_reported<C>(keys: KeyMapper, text: Seq<char>)
    ensures
        crate::comp::typing::<C>(keys, text).len() + crate::comp::typing_warnings(keys, text).len()
            == text.len(),
        (forall|i: int| 0 <= i < text.len() ==> keys.char_press(#[trigger] text[i]) is Some)
            ==> crate::comp::typing_warnings(keys, text).len() == 0,
    decreases text.len(),
{
    if text.len() > 0 {
        law_every_character_is_typed_or_reported::<C>(keys, text.drop_last());
        if forall|i: int| 0 <= i < text.len() ==> keys.char_press(#[trigger] text[i]) is Some {
            let rest = text.drop_last();
            assert forall|i: int| 0 <= i < rest.len() implies keys.char_press(
                #[trigger] rest[i],
            ) is Some by {
                assert(text[i] == rest[i]);
            }
            assert(keys.char_press(text[text.len() - 1]) is Some);
        }
    }
}

/// Whether a step only concerns which window has the focus.
pub open spec fn only_focuses<C>(step: Step<C>) -> bool {
    step is Raise || step is Activate || step is KeyboardFocus
}

/// Law: a refused action injects no input; at most the topmost window is given
/// the keyboard.
pub proof fn law_refused_action_injects_nothing<C>(
    state: DesktopState<C>,
    action: Action<C>,
    keyboard_focused: bool,
    found: Lookup,
)
    requires
        state.performed(action, keyboard_focused, found).outcome is Err,
    ensures
        forall|i: int|
            0 <= i < state.performed(action, keyboard_focused, found).steps.len() ==> only_focuses(
                #[trigger] state.performed(action, keyboard_focused, found).steps[i],
            ),
{
}

/// Law: observing touches nothing.
pub proof fn law_observing_touches_nothing<C>(
    state: DesktopState<C>,
    keyboard_focused: bool,
    found: Lookup,
)
    ensures
        ({
            let v = state.performed(Action::Observe, keyboard_focused, found);
            &&& v.scene == state.scene()
            &&& v.steps.len() == 0
            &&& v.outcome is Ok
        }),
{
}

/// How often a button goes down more than up.
pub open spec fn button_balance<C>(steps: Seq<Step<C>>, code: u32) -> int
    decreases steps.len(),
{
    if steps.len() == 0 {
        0
    } else {
        button_balance(steps.drop_last(), code) + match steps.last() {
            Step::Button { code: c, pressed } => if c != code {
                0int
            } else if pressed {
                1
            } else {
                -1
            },
            _ => 0,
        }
    }
}

proof fn lemma_button_sum<C>(a: Seq<Step<C>>, b: Seq<Step<C>>, code: u32)
    ensures
        button_balance(a + b, code) == button_balance(a, code) + button_balance(b, code),
    decreases b.len(),
{
    if b.len() == 0 {
        assert(a + b =~= a);
    } else {
        assert((a + b).drop_last() =~= a + b.drop_last());
        lemma_button_sum(a, b.drop_last(), code);
    }
}

proof fn lemma_no_buttons<C>(steps: Seq<Step<C>>, code: u32)
    requires
        steps.len() <= 1,
        steps.len() == 1 ==> !(steps[0] is Button),
    ensures
        button_balance(steps, code) == 0,
{
    if steps.len() == 1 {
        assert(steps.drop_last().len() == 0);
        assert(button_balance(steps.drop_last(), code) == 0);
    }
}

/// Law: a click, single or double, releases the button that it pressed.
pub proof fn law_click_releases_its_button<C>(
    state: DesktopState<C>,
    button: MouseButton,
    x: Option<C>,
    y: Option<C>,
    window: Option<u64>,
    double: bool,
    keyboard_focused: bool,
    found: Lookup,
    code: u32,
)
    ensures
        button_balance(
            state.performed(
                Action::Click { button, x, y, window, double },
                keyboard_focused,
                found,
            ).steps,
            code,
        ) == 0,
{
    if let Ok(aim) = state.target(x, y, window) {
        let once = seq![
            crate::comp::button_step::<C>(button, true),
            crate::comp::button_step::<C>(button, false),
        ];
        let clicks = crate::comp::clicks::<C>(button, double);
        let focus = seq![Step::<C>::FocusUnderPointer];
        let motion = crate::comp::motion(aim);
        assert(once.drop_last().drop_last().len() == 0);
        reveal_with_fuel(button_balance, 3);
        assert(button_balance(once, code) == 0);
        lemma_button_sum(once, once, code);
        lemma_no_buttons(focus, code);
        lemma_no_buttons(motion, code);
        lemma_button_sum(focus, clicks, code);
        lemma_button_sum(motion, focus + clicks, code);
    }
}

/// Law: windows of the cascade are shifted against each other, except for
/// every sixteenth, and stay near the corner of the screen.
pub proof fn law_cascade_shifts_windows(n: nat, m: nat)
    ensures
        24 <= crate::comp::cascade(n) <= 504,
        crate::comp::cascade(n) == crate::comp::cascade(m) <==> n % 16 == m % 16,
        crate::comp::cascade(0) == 24,
        n % 16 != 15 ==> crate::comp::cascade(n + 1) == crate::comp::cascade(n) + 32,
{
}

} // verus!
