//! What the tracker decides, in terms of windows, pings and times alone.

use vstd::prelude::*;

use crate::comp::{DesktopState, Surface, Window};
use crate::ipc::{SnapshotRequest, WaitParams};
use crate::tracker::{Finished, PingKey, PingOrder, PingOutcome, PingState, PingTable, Wait, WaitView};

verus! {

/// Law: a wait is over without a timeout exactly if its time is not up, the
/// window that it expects is there, a ping round is in flight in which nobody
/// owes an answer any more, the update that it requires was seen, it is settled
/// (two rounds without an update, the second of which is this one, or its own
/// settling time since the last update), and 400 ms passed since the last
/// update if it involves an X11 window that cannot be pinged.
pub proof fn law_a_transition_is_complete_exactly_if<C>(
    state: DesktopState<C>,
    w: WaitView,
    now: u64,
)
    ensures
        state.verdict(w, now) == Some(false) <==> {
            let pings = state.ping_states@;
            let windows = state.windows@;
            let support = state.x11_ping_support@;
            &&& now < w.deadline
            &&& w.expect_new_window ==> exists|i: int|
                0 <= i < windows.len() && !w.known_at_start.contains((#[trigger] windows[i]).id)
            &&& w.round is Some
            &&& forall|k: int|
                0 <= k < w.round->Some_0.len() ==> {
                    let key = #[trigger] w.round->Some_0[k];
                    !(pings.contains_key(key) && pings[key].outstanding is Some)
                }
            &&& w.require_activity ==> w.has_activity
            &&& match w.quiet_time {
                None => !w.round_dirty && w.quiet_rounds >= 1,
                Some(quiet) => quiet == 0 || w.last_activity + quiet <= now,
            }
            &&& (exists|i: int|
                {
                    &&& 0 <= i < windows.len()
                    &&& (w.watch is None || w.watch == Some((#[trigger] windows[i]).id)
                        || !w.known_at_start.contains(windows[i].id))
                    &&& windows[i].surface is X11
                    &&& !(support.contains_key(windows[i].surface->window)
                        && support[windows[i].surface->window])
                }) ==> w.last_activity + 400_000_000 <= now
        },
        state.verdict(w, now) == Some(true) <==> now >= w.deadline,
{
    lemma_expecting(state, w);
    lemma_round_over(state.ping_states@, w);
    lemma_grace(state, w);
}

proof fn lemma_expecting<C>(state: DesktopState<C>, w: WaitView)
    ensures
        state.expecting(w) <==> w.expect_new_window && forall|i: int|
            0 <= i < state.windows@.len() ==> w.known_at_start.contains(
                (#[trigger] state.windows@[i]).id,
            ),
{
    let windows = state.windows@;
    let ids = crate::comp::ids(windows);
    if ids.subset_of(w.known_at_start) {
        assert forall|i: int| 0 <= i < windows.len() implies w.known_at_start.contains(
            (#[trigger] windows[i]).id,
        ) by {
            assert(crate::comp::has_id(windows, windows[i].id));
            assert(ids.contains(windows[i].id));
        }
    }
    if forall|i: int|
        0 <= i < windows.len() ==> w.known_at_start.contains((#[trigger] windows[i]).id) {
        assert forall|id: u64| ids.contains(id) implies w.known_at_start.contains(id) by {
            let i = choose|i: int| 0 <= i < windows.len() && (#[trigger] windows[i]).id == id;
            assert(w.known_at_start.contains(windows[i].id));
        }
    }
}

proof fn lemma_round_over(pings: Map<PingKey, PingState>, w: WaitView)
    ensures
        w.round is Some ==> (crate::tracker::round_complete(pings, w.round->Some_0) <==> forall|
            k: int,
        |
            0 <= k < w.round->Some_0.len() ==> {
                let key = #[trigger] w.round->Some_0[k];
                !(pings.contains_key(key) && pings[key].outstanding is Some)
            }),
{
    if w.round is Some {
        let round = w.round->Some_0;
        if forall|k: int|
            0 <= k < round.len() ==> {
                let key = #[trigger] round[k];
                !(pings.contains_key(key) && pings[key].outstanding is Some)
            } {
            assert forall|k: int| 0 <= k < round.len() implies !crate::tracker::awaits(
                pings,
                #[trigger] round[k],
            ) by {
                let key = round[k];
            }
        }
        if crate::tracker::round_complete(pings, round) {
            assert forall|k: int| 0 <= k < round.len() implies {
                let key = #[trigger] round[k];
                !(pings.contains_key(key) && pings[key].outstanding is Some)
            } by {
                assert(!crate::tracker::awaits(pings, round[k]));
            }
        }
    }
}

proof fn lemma_grace<C>(state: DesktopState<C>, w: WaitView)
    ensures
        state.needs_grace(w) <==> exists|i: int|
            {
                &&& 0 <= i < state.windows@.len()
                &&& (w.watch is None || w.watch == Some((#[trigger] state.windows@[i]).id)
                    || !w.known_at_start.contains(state.windows@[i].id))
                &&& state.windows@[i].surface is X11
                &&& !(state.x11_ping_support@.contains_key(state.windows@[i].surface->window)
                    && state.x11_ping_support@[state.windows@[i].surface->window])
            },
{
}

/// Law: looking at a wait changes it only where a round ends or a launch still
/// waits for its window. A round in which nobody owes an answer ends: it counts
/// if no update came during it, and else the count starts again.
pub proof fn law_looking_at_a_wait_ends_its_round<C>(
    state: DesktopState<C>,
    w: WaitView,
    now: u64,
)
    ensures
        ({
            let pings = state.ping_states@;
            let missing = w.expect_new_window && forall|i: int|
                0 <= i < state.windows@.len() ==> w.known_at_start.contains(
                    (#[trigger] state.windows@[i]).id,
                );
            let answered = w.round is Some && forall|k: int|
                0 <= k < w.round->Some_0.len() ==> {
                    let key = #[trigger] w.round->Some_0[k];
                    !(pings.contains_key(key) && pings[key].outstanding is Some)
                };
            let after = state.advanced(w, now);
            &&& now >= w.deadline ==> after == w
            &&& now < w.deadline && missing ==> after == (WaitView { round: None, ..w })
            &&& now < w.deadline && !missing && !answered ==> after == w
            &&& now < w.deadline && !missing && answered ==> {
                &&& after == (WaitView {
                    round: None,
                    round_dirty: false,
                    quiet_rounds: after.quiet_rounds,
                    ..w
                })
                &&& w.round_dirty ==> after.quiet_rounds == 0
                &&& !w.round_dirty && w.quiet_rounds < u32::MAX ==> after.quiet_rounds
                    == w.quiet_rounds + 1
                &&& !w.round_dirty && w.quiet_rounds == u32::MAX ==> after.quiet_rounds == u32::MAX
            }
        }),
{
    lemma_expecting(state, w);
    lemma_round_over(state.ping_states@, w);
}

/// Law: when a wait is over without a timeout, every client that its round
/// asked has answered: the client of each window that it cared about when the
/// round started, as far as it can be pinged and was not gone, has no ping
/// outstanding.
pub proof fn law_every_relevant_client_has_answered<C>(
    start: DesktopState<C>,
    state: DesktopState<C>,
    w: WaitView,
    gone: Seq<PingKey>,
    started: u64,
    now: u64,
    i: int,
    key: PingKey,
)
    requires
        w.round is None,
        started < w.deadline,
        0 <= i < start.windows@.len(),
        w.watch is None || w.watch == Some(start.windows@[i].id) || !w.known_at_start.contains(
            start.windows@[i].id,
        ),
        match start.windows@[i].surface {
            Surface::Wayland { client } => client is Some && key == PingKey::Wayland(
                client->Some_0,
            ),
            Surface::X11 { window } => start.x11_ping_support@.contains_key(window)
                && start.x11_ping_support@[window] && key == PingKey::X11(window),
        },
        !gone.contains(key),
        state.verdict(start.begun(w, gone, started), now) == Some(false),
    ensures
        !(state.ping_states@.contains_key(key) && state.ping_states@[key].outstanding is Some),
{
    let begun = start.begun(w, gone, started);
    law_targets_are_the_relevant_clients(start, w.watch, w.known_at_start, key);
    law_gone_clients_are_left_out(start.round_targets(w), gone, key);
    let round = begun.round->Some_0;
    assert(round.contains(key));
    let k = choose|k: int| 0 <= k < round.len() && round[k] == key;
    law_a_transition_is_complete_exactly_if(state, begun, now);
    assert(round[k] == key);
}

/// Law: looking at waits one after the other is looking at them together:
/// those that are over come youngest first, the others are kept in order.
pub proof fn law_waits_are_looked_at_independently<C>(
    state: DesktopState<C>,
    a: Seq<WaitView>,
    b: Seq<WaitView>,
    w: WaitView,
    now: u64,
)
    ensures
        state.kept(a + b, now) == state.kept(a, now) + state.kept(b, now),
        state.over(a + b, now) == state.over(b, now) + state.over(a, now),
        match state.verdict(w, now) {
            None => state.kept(seq![w], now) == seq![state.advanced(w, now)] && state.over(
                seq![w],
                now,
            ).len() == 0,
            Some(timed_out) => state.kept(seq![w], now).len() == 0 && state.over(seq![w], now)
                == seq![(state.advanced(w, now), timed_out)],
        },
    decreases b.len(),
{
    let one = seq![w];
    assert(one.drop_last() =~= Seq::<WaitView>::empty());
    assert(state.kept(one.drop_last(), now) =~= Seq::<WaitView>::empty());
    assert(state.over(one.drop_last(), now) =~= Seq::<(WaitView, bool)>::empty());
    assert(state.verdict(w, now) is None ==> state.kept(one, now) =~= seq![state.advanced(w, now)]);
    if let Some(timed_out) = state.verdict(w, now) {
        assert(state.over(one, now) =~= seq![(state.advanced(w, now), timed_out)]);
    }
    if b.len() == 0 {
        assert(a + b =~= a);
        assert(state.kept(a, now) + state.kept(b, now) =~= state.kept(a, now));
        assert(state.over(b, now) + state.over(a, now) =~= state.over(a, now));
    } else {
        law_waits_are_looked_at_independently(state, a, b.drop_last(), w, now);
        assert((a + b).drop_last() =~= a + b.drop_last());
        assert((a + b).last() == b.last());
        assert(state.kept(a + b, now) =~= state.kept(a, now) + state.kept(b, now));
        assert(state.over(a + b, now) =~= state.over(b, now) + state.over(a, now));
    }
}

/// Law: a wait notes an update or a closing exactly if it watches nothing in
/// particular, watches that window, or the window is new to it; it then takes
/// the time and marks the round.
pub proof fn law_relevant_updates_are_noted(w: WaitView, id: u64, now: u64)
    ensures
        ({
            let noticed = w.watch is None || w.watch == Some(id) || !w.known_at_start.contains(id);
            &&& noticed ==> w.after_activity(id, now) == (WaitView {
                changed: w.changed.insert(id),
                round_dirty: true,
                has_activity: true,
                last_activity: now,
                ..w
            })
            &&& noticed ==> w.after_close(id, now) == (WaitView {
                closed: w.closed.push(id),
                round_dirty: true,
                has_activity: true,
                last_activity: now,
                ..w
            })
            &&& !noticed ==> w.after_activity(id, now) == w && w.after_close(id, now) == w
            &&& w.cares(id) == noticed
            &&& crate::tracker::relevant(w.watch, w.known_at_start, id) == noticed
        }),
{
}

/// Law: a wait starts from scratch with what it was asked for. It times out
/// exactly when its milliseconds are up.
pub proof fn law_waits_start_with_what_was_asked<C>(
    state: DesktopState<C>,
    params: WaitParams,
    known_at_start: Set<u64>,
    snapshot: SnapshotRequest,
    reply: u64,
    warnings: Seq<Seq<char>>,
    now: u64,
    later: u64,
)
    ensures
        ({
            let w = crate::tracker::fresh_wait(
                params,
                known_at_start,
                snapshot,
                reply,
                warnings,
                now,
            );
            &&& state.verdict(w, later) == Some(true) <==> later >= now + params.timeout_ms
                * 1_000_000
            &&& w.deadline == now + params.timeout_ms * 1_000_000
            &&& w.watch == params.watch_window
            &&& w.expect_new_window == params.expect_new_window
            &&& w.known_at_start == known_at_start
            &&& w.changed == Set::<u64>::empty()
            &&& w.closed.len() == 0
            &&& w.quiet_rounds == 0
            &&& w.round is None
            &&& !w.round_dirty
            &&& w.quiet_time is Some <==> params.quiet_time_ms is Some
            &&& w.quiet_time is Some ==> w.quiet_time->Some_0 == params.quiet_time_ms->Some_0
                * 1_000_000
            &&& w.require_activity == params.require_activity
            &&& !w.has_activity
            &&& w.last_activity == now
            &&& w.snapshot == snapshot
            &&& w.reply == reply
            &&& w.warnings == warnings
        }),
{
}

proof fn lemma_clients_are(windows: Seq<Window>, watch: Option<u64>, known: Set<u64>, c: u64)
    ensures
        crate::tracker::clients(windows, watch, known).contains(c) <==> exists|i: int|
            {
                &&& 0 <= i < windows.len()
                &&& (#[trigger] windows[i]).surface == (Surface::Wayland { client: Some(c) })
                &&& (watch is None || watch == Some(windows[i].id) || !known.contains(
                    windows[i].id,
                ))
            },
    decreases windows.len(),
{
    if windows.len() > 0 {
        let rest = windows.drop_last();
        let last = windows.last();
        lemma_clients_are(rest, watch, known, c);
        let before = crate::tracker::clients(rest, watch, known);
        let all = crate::tracker::clients(windows, watch, known);
        if all.contains(c) {
            let j = choose|j: int| 0 <= j < all.len() && all[j] == c;
            if j < before.len() {
                assert(before[j] == c);
                let i = choose|i: int|
                    {
                        &&& 0 <= i < rest.len()
                        &&& (#[trigger] rest[i]).surface == (Surface::Wayland { client: Some(c) })
                        &&& (watch is None || watch == Some(rest[i].id) || !known.contains(
                            rest[i].id,
                        ))
                    };
                assert(windows[i] == rest[i]);
            } else {
                assert(windows[windows.len() - 1].surface == (Surface::Wayland { client: Some(c) }));
            }
        }
        if exists|i: int|
            {
                &&& 0 <= i < windows.len()
                &&& (#[trigger] windows[i]).surface == (Surface::Wayland { client: Some(c) })
                &&& (watch is None || watch == Some(windows[i].id) || !known.contains(
                    windows[i].id,
                ))
            } {
            let i = choose|i: int|
                {
                    &&& 0 <= i < windows.len()
                    &&& (#[trigger] windows[i]).surface == (Surface::Wayland { client: Some(c) })
                    &&& (watch is None || watch == Some(windows[i].id) || !known.contains(
                        windows[i].id,
                    ))
                };
            if i < rest.len() {
                assert(rest[i] == windows[i]);
                let j = choose|j: int| 0 <= j < before.len() && before[j] == c;
                assert(all[j] == c);
            } else if before.contains(c) {
                let j = choose|j: int| 0 <= j < before.len() && before[j] == c;
                assert(all[j] == c);
            } else {
                assert(all[all.len() - 1] == c);
            }
        }
    }
}

proof fn lemma_x11_are(
    windows: Seq<Window>,
    support: Map<u32, bool>,
    watch: Option<u64>,
    known: Set<u64>,
    x: u32,
)
    ensures
        crate::tracker::x11_targets(windows, support, watch, known).contains(x) <==> {
            &&& support.contains_key(x)
            &&& support[x]
            &&& exists|i: int|
                {
                    &&& 0 <= i < windows.len()
                    &&& (#[trigger] windows[i]).surface == (Surface::X11 { window: x })
                    &&& (watch is None || watch == Some(windows[i].id) || !known.contains(
                        windows[i].id,
                    ))
                }
        },
    decreases windows.len(),
{
    if windows.len() > 0 {
        let rest = windows.drop_last();
        lemma_x11_are(rest, support, watch, known, x);
        let before = crate::tracker::x11_targets(rest, support, watch, known);
        let all = crate::tracker::x11_targets(windows, support, watch, known);
        if all.contains(x) {
            let j = choose|j: int| 0 <= j < all.len() && all[j] == x;
            if j < before.len() {
                assert(before[j] == x);
                let i = choose|i: int|
                    {
                        &&& 0 <= i < rest.len()
                        &&& (#[trigger] rest[i]).surface == (Surface::X11 { window: x })
                        &&& (watch is None || watch == Some(rest[i].id) || !known.contains(
                            rest[i].id,
                        ))
                    };
                assert(windows[i] == rest[i]);
            } else {
                assert(windows[windows.len() - 1].surface == (Surface::X11 { window: x }));
            }
        }
        if support.contains_key(x) && support[x] && exists|i: int|
            {
                &&& 0 <= i < windows.len()
                &&& (#[trigger] windows[i]).surface == (Surface::X11 { window: x })
                &&& (watch is None || watch == Some(windows[i].id) || !known.contains(
                    windows[i].id,
                ))
            } {
            let i = choose|i: int|
                {
                    &&& 0 <= i < windows.len()
                    &&& (#[trigger] windows[i]).surface == (Surface::X11 { window: x })
                    &&& (watch is None || watch == Some(windows[i].id) || !known.contains(
                        windows[i].id,
                    ))
                };
            if i < rest.len() {
                assert(rest[i] == windows[i]);
                let j = choose|j: int| 0 <= j < before.len() && before[j] == x;
                assert(all[j] == x);
            } else {
                assert(all[all.len() - 1] == x);
            }
        }
    }
}

/// Law: a wait wants an answer from exactly the clients of the windows that it
/// cares about: the shell clients of Wayland windows, and those X11 windows
/// that take part in pings.
pub proof fn law_targets_are_the_relevant_clients<C>(
    state: DesktopState<C>,
    watch: Option<u64>,
    known: Set<u64>,
    key: PingKey,
)
    ensures
        ({
            let targets = crate::tracker::ping_keys(
                crate::tracker::clients(state.windows@, watch, known),
                crate::tracker::x11_targets(state.windows@, state.x11_ping_support@, watch, known),
            );
            let windows = state.windows@;
            let support = state.x11_ping_support@;
            targets.contains(key) <==> match key {
                PingKey::Wayland(c) => exists|i: int|
                    {
                        &&& 0 <= i < windows.len()
                        &&& (#[trigger] windows[i]).surface == (Surface::Wayland { client: Some(c) })
                        &&& (watch is None || watch == Some(windows[i].id) || !known.contains(
                            windows[i].id,
                        ))
                    },
                PingKey::X11(x) => {
                    &&& support.contains_key(x)
                    &&& support[x]
                    &&& exists|i: int|
                        {
                            &&& 0 <= i < windows.len()
                            &&& (#[trigger] windows[i]).surface == (Surface::X11 { window: x })
                            &&& (watch is None || watch == Some(windows[i].id) || !known.contains(
                                windows[i].id,
                            ))
                        }
                },
            }
        }),
        forall|w: WaitView|
            w.watch == watch && w.known_at_start == known ==> #[trigger] state.round_targets(w)
                == crate::tracker::ping_keys(
                crate::tracker::clients(state.windows@, watch, known),
                crate::tracker::x11_targets(state.windows@, state.x11_ping_support@, watch, known),
            ),
        state.heartbeat_targets() == crate::tracker::ping_keys(
            crate::tracker::clients(state.windows@, None, Set::empty()),
            crate::tracker::x11_targets(
                state.windows@,
                state.x11_ping_support@,
                None,
                Set::empty(),
            ),
        ),
{
    let c = crate::tracker::clients(state.windows@, watch, known);
    let x = crate::tracker::x11_targets(state.windows@, state.x11_ping_support@, watch, known);
    let targets = crate::tracker::ping_keys(c, x);
    match key {
        PingKey::Wayland(client) => {
            lemma_clients_are(state.windows@, watch, known, client);
            if c.contains(client) {
                let j = choose|j: int| 0 <= j < c.len() && c[j] == client;
                assert(targets[j] == key);
            }
            if targets.contains(key) {
                let j = choose|j: int| 0 <= j < targets.len() && targets[j] == key;
                assert(c[j] == client);
            }
        },
        PingKey::X11(window) => {
            lemma_x11_are(state.windows@, state.x11_ping_support@, watch, known, window);
            if x.contains(window) {
                let j = choose|j: int| 0 <= j < x.len() && x[j] == window;
                assert(targets[c.len() + j] == key);
            }
            if targets.contains(key) {
                let j = choose|j: int| 0 <= j < targets.len() && targets[j] == key;
                assert(x[j - c.len()] == window);
            }
        },
    }
}

/// Law: clients that are gone are not waited for, all others are.
pub proof fn law_gone_clients_are_left_out(keys: Seq<PingKey>, gone: Seq<PingKey>, key: PingKey)
    ensures
        crate::tracker::without(keys, gone).contains(key) <==> keys.contains(key) && !gone.contains(
            key,
        ),
    decreases keys.len(),
{
    if keys.len() > 0 {
        let rest = keys.drop_last();
        law_gone_clients_are_left_out(rest, gone, key);
        let before = crate::tracker::without(rest, gone);
        let all = crate::tracker::without(keys, gone);
        if all.contains(key) {
            let j = choose|j: int| 0 <= j < all.len() && all[j] == key;
            if j < before.len() {
                assert(before[j] == key);
                let i = choose|i: int| 0 <= i < rest.len() && rest[i] == key;
                assert(keys[i] == key);
            } else {
                assert(keys[keys.len() - 1] == key);
            }
        }
        if keys.contains(key) && !gone.contains(key) {
            let i = choose|i: int| 0 <= i < keys.len() && keys[i] == key;
            if i < rest.len() {
                assert(rest[i] == key);
                let j = choose|j: int| 0 <= j < before.len() && before[j] == key;
                assert(all[j] == key);
            } else {
                assert(all[all.len() - 1] == key);
            }
        }
    }
}

/// Law: a wait without a round gets one while its time is not up: it asks the
/// targets that are not gone, and an update since the last round makes the
/// count of quiet rounds start again. Every other wait is left as it is.
pub proof fn law_rounds_start_where_there_is_none<C>(
    state: DesktopState<C>,
    w: WaitView,
    waits: Seq<WaitView>,
    gone: Seq<PingKey>,
    now: u64,
    k: int,
)
    ensures
        ({
            let after = state.begun(w, gone, now);
            &&& w.round is None && now < w.deadline ==> {
                &&& after == (WaitView {
                    round: Some(crate::tracker::without(state.round_targets(w), gone)),
                    round_dirty: false,
                    quiet_rounds: if w.round_dirty { 0 } else { w.quiet_rounds },
                    ..w
                })
            }
            &&& w.round is Some || now >= w.deadline ==> after == w
        }),
        state.all_begun(waits, gone, now).len() == waits.len(),
        0 <= k < waits.len() ==> state.all_begun(waits, gone, now)[k] == state.begun(
            waits[k],
            gone,
            now,
        ),
{
}

proof fn lemma_added(
    pings: Map<PingKey, PingState>,
    acc: Seq<PingKey>,
    keys: Seq<PingKey>,
    key: PingKey,
)
    ensures
        crate::tracker::add_due(pings, acc, keys).contains(key) <==> acc.contains(key) || (
        keys.contains(key) && !(pings.contains_key(key) && pings[key].outstanding is Some)),
    decreases keys.len(),
{
    if keys.len() > 0 {
        let rest = keys.drop_last();
        lemma_added(pings, acc, rest, key);
        let before = crate::tracker::add_due(pings, acc, rest);
        let all = crate::tracker::add_due(pings, acc, keys);
        if all.contains(key) {
            let j = choose|j: int| 0 <= j < all.len() && all[j] == key;
            if j < before.len() {
                assert(before[j] == key);
                if !acc.contains(key) {
                    let i = choose|i: int| 0 <= i < rest.len() && rest[i] == key;
                    assert(keys[i] == key);
                }
            } else {
                assert(keys[keys.len() - 1] == key);
            }
        }
        if before.contains(key) {
            let j = choose|j: int| 0 <= j < before.len() && before[j] == key;
            assert(all[j] == key);
        }
        if keys.contains(key) && !(pings.contains_key(key) && pings[key].outstanding is Some)
            && !before.contains(key) {
            let i = choose|i: int| 0 <= i < keys.len() && keys[i] == key;
            if i < rest.len() {
                assert(rest[i] == key);
            }
            assert(all[all.len() - 1] == key);
        }
    }
}

/// Law: exactly those clients are pinged for waits that some wait without a
/// round, whose time is not up, wants an answer from, and that owe none; and
/// exactly those by the heartbeat that have a window and owe no answer.
pub proof fn law_due_pings_are_those_that_are_wanted<C>(
    state: DesktopState<C>,
    waits: Seq<WaitView>,
    now: u64,
    key: PingKey,
)
    ensures
        state.due(waits, now).contains(key) <==> {
            &&& !(state.ping_states@.contains_key(key)
                && state.ping_states@[key].outstanding is Some)
            &&& exists|j: int|
                {
                    &&& 0 <= j < waits.len()
                    &&& (#[trigger] waits[j]).round is None
                    &&& now < waits[j].deadline
                    &&& state.round_targets(waits[j]).contains(key)
                }
        },
        state.heartbeat_keys().contains(key) <==> state.heartbeat_targets().contains(key) && !(
        state.ping_states@.contains_key(key) && state.ping_states@[key].outstanding is Some),
    decreases waits.len(),
{
    lemma_added(state.ping_states@, Seq::empty(), state.heartbeat_targets(), key);
    if waits.len() > 0 {
        let rest = waits.drop_last();
        let last = waits.last();
        law_due_pings_are_those_that_are_wanted(state, rest, now, key);
        if DesktopState::<C>::starts_round(last, now) {
            lemma_added(
                state.ping_states@,
                state.due(rest, now),
                state.round_targets(last),
                key,
            );
        }
        assert(waits[waits.len() - 1] == last);
        if state.due(rest, now).contains(key) {
            let j = choose|j: int|
                {
                    &&& 0 <= j < rest.len()
                    &&& (#[trigger] rest[j]).round is None
                    &&& now < rest[j].deadline
                    &&& state.round_targets(rest[j]).contains(key)
                };
            assert(waits[j] == rest[j]);
        }
        if !(state.ping_states@.contains_key(key) && state.ping_states@[key].outstanding is Some)
            && exists|j: int|
            {
                &&& 0 <= j < waits.len()
                &&& (#[trigger] waits[j]).round is None
                &&& now < waits[j].deadline
                &&& state.round_targets(waits[j]).contains(key)
            } {
            let j = choose|j: int|
                {
                    &&& 0 <= j < waits.len()
                    &&& (#[trigger] waits[j]).round is None
                    &&& now < waits[j].deadline
                    &&& state.round_targets(waits[j]).contains(key)
                };
            if j < rest.len() {
                assert(rest[j] == waits[j]);
            }
        }
    }
}

/// Law: each client is pinged in its own way, and the serials of X11 pings
/// count up from one ping to the next and wrap around.
pub proof fn law_pings_go_to_their_clients(keys: Seq<PingKey>, key: PingKey, serial: u32)
    ensures
        crate::tracker::ping_orders(Seq::empty(), serial).len() == 0,
        crate::tracker::serial_after(Seq::empty(), serial) == serial,
        ({
            let before = crate::tracker::ping_orders(keys, serial);
            let after = crate::tracker::ping_orders(keys.push(key), serial);
            let next = crate::tracker::serial_after(keys, serial);
            let following = crate::tracker::serial_after(keys.push(key), serial);
            match key {
                PingKey::Wayland(client) => {
                    &&& after == before.push(PingOrder::Wayland { client })
                    &&& following == next
                },
                PingKey::X11(window) => {
                    &&& after == before.push(PingOrder::X11 { window, serial: next })
                    &&& next < u32::MAX ==> following == next + 1
                    &&& next == u32::MAX ==> following == 0
                },
            }
        }),
{
    assert(keys.push(key).drop_last() =~= keys);
}

/// Law: a ping that was sent to a client that owes no answer is outstanding
/// from then on. A client is known from its first ping on, unless it is an X11
/// window that is gone. Nothing else changes, and no other client is touched.
pub proof fn law_pings_are_recorded(
    pings: Map<PingKey, PingState>,
    orders: Seq<PingOrder>,
    outcomes: Seq<PingOutcome>,
    order: PingOrder,
    outcome: PingOutcome,
    now: u64,
    other: PingKey,
)
    requires
        orders.len() == outcomes.len(),
    ensures
        crate::tracker::recorded_all(pings, Seq::empty(), Seq::empty(), now) == pings,
        ({
            let before = crate::tracker::recorded_all(pings, orders, outcomes, now);
            let after = crate::tracker::recorded_all(
                pings,
                orders.push(order),
                outcomes.push(outcome),
                now,
            );
            let key = match order {
                PingOrder::Wayland { client } => PingKey::Wayland(client),
                PingOrder::X11 { window, .. } => PingKey::X11(window),
            };
            &&& other != key ==> {
                &&& after.contains_key(other) == before.contains_key(other)
                &&& before.contains_key(other) ==> after[other] == before[other]
            }
            &&& order is X11 && outcome is Gone ==> after == before
            &&& !(order is X11 && outcome is Gone) ==> after.contains_key(key)
            &&& !(order is X11 && outcome is Gone) && before.contains_key(key) ==> {
                &&& after[key].last_pong == before[key].last_pong
                &&& before[key].outstanding is Some ==> after[key].outstanding
                    == before[key].outstanding
                &&& before[key].outstanding is None ==> after[key].outstanding == match outcome {
                    PingOutcome::Sent(serial) => Some((serial, now)),
                    _ => None,
                }
            }
            &&& !(order is X11 && outcome is Gone) && !before.contains_key(key) ==> {
                &&& after[key].last_pong == now
                &&& after[key].outstanding == match outcome {
                    PingOutcome::Sent(serial) => Some((serial, now)),
                    _ => None,
                }
            }
        }),
{
    assert(orders.push(order).drop_last() =~= orders);
    assert(outcomes.push(outcome).drop_last() =~= outcomes);
}

/// Law: the clients that count as gone are those whose ping found nobody.
pub proof fn law_gone_clients_are_those_not_found(
    orders: Seq<PingOrder>,
    outcomes: Seq<PingOutcome>,
    key: PingKey,
)
    requires
        orders.len() == outcomes.len(),
    ensures
        crate::tracker::gone_keys(orders, outcomes).contains(key) <==> exists|i: int|
            {
                &&& 0 <= i < orders.len()
                &&& outcomes[i] is Gone
                &&& match #[trigger] orders[i] {
                    PingOrder::Wayland { client } => key == PingKey::Wayland(client),
                    PingOrder::X11 { window, .. } => key == PingKey::X11(window),
                }
            },
    decreases orders.len(),
{
    if orders.len() > 0 {
        let o = orders.drop_last();
        let r = outcomes.drop_last();
        law_gone_clients_are_those_not_found(o, r, key);
        let before = crate::tracker::gone_keys(o, r);
        let all = crate::tracker::gone_keys(orders, outcomes);
        let n = orders.len() - 1;
        if all.contains(key) {
            let j = choose|j: int| 0 <= j < all.len() && all[j] == key;
            if j < before.len() {
                assert(before[j] == key);
                let i = choose|i: int|
                    {
                        &&& 0 <= i < o.len()
                        &&& r[i] is Gone
                        &&& match #[trigger] o[i] {
                            PingOrder::Wayland { client } => key == PingKey::Wayland(client),
                            PingOrder::X11 { window, .. } => key == PingKey::X11(window),
                        }
                    };
                assert(orders[i] == o[i] && outcomes[i] == r[i]);
            } else {
                assert(orders[n] == orders.last() && outcomes[n] is Gone);
            }
        }
        if exists|i: int|
            {
                &&& 0 <= i < orders.len()
                &&& outcomes[i] is Gone
                &&& match #[trigger] orders[i] {
                    PingOrder::Wayland { client } => key == PingKey::Wayland(client),
                    PingOrder::X11 { window, .. } => key == PingKey::X11(window),
                }
            } {
            let i = choose|i: int|
                {
                    &&& 0 <= i < orders.len()
                    &&& outcomes[i] is Gone
                    &&& match #[trigger] orders[i] {
                        PingOrder::Wayland { client } => key == PingKey::Wayland(client),
                        PingOrder::X11 { window, .. } => key == PingKey::X11(window),
                    }
                };
            if i < n {
                assert(o[i] == orders[i] && r[i] == outcomes[i]);
                let j = choose|j: int| 0 <= j < before.len() && before[j] == key;
                assert(all[j] == key);
            } else {
                assert(all[all.len() - 1] == key);
            }
        }
    }
}

/// Law: a client is frozen exactly if a ping to it is outstanding for more than
/// ten seconds.
pub proof fn law_frozen_means_ten_seconds_outstanding<C>(
    state: DesktopState<C>,
    key: PingKey,
    now: u64,
)
    ensures
        state.frozen(key, now) <==> {
            &&& state.ping_states@.contains_key(key)
            &&& state.ping_states@[key].outstanding is Some
            &&& state.ping_states@[key].outstanding->Some_0.1 + 10_000_000_000 < now
        },
{
}

/// Law: the reply of an X11 window settles its ping exactly if it carries the
/// serial of that ping; no other client is touched.
pub proof fn law_x11_replies_settle_their_ping(
    pings: Map<PingKey, PingState>,
    window: u32,
    serial: u32,
    now: u64,
)
    ensures
        ({
            let key = PingKey::X11(window);
            let after = crate::tracker::x11_answered(pings, window, serial, now);
            let settles = pings.contains_key(key) && pings[key].outstanding is Some
                && pings[key].outstanding->Some_0.0 == serial;
            &&& settles ==> after == pings.insert(
                key,
                PingState { outstanding: None, last_pong: now },
            )
            &&& !settles ==> after == pings
        }),
{
}

/// Law: those X11 windows are asked whether they take part in pings that have
/// not been asked yet.
pub proof fn law_unasked_windows_are_asked<C>(
    windows: Seq<Window>,
    support: Map<u32, bool>,
    x: u32,
)
    ensures
        DesktopState::<C>::x11_unasked(windows, support).contains(x) <==> {
            &&& !support.contains_key(x)
            &&& exists|i: int|
                0 <= i < windows.len() && (#[trigger] windows[i]).surface == (Surface::X11 {
                    window: x,
                })
        },
    decreases windows.len(),
{
    if windows.len() > 0 {
        let rest = windows.drop_last();
        law_unasked_windows_are_asked::<C>(rest, support, x);
        let before = DesktopState::<C>::x11_unasked(rest, support);
        let all = DesktopState::<C>::x11_unasked(windows, support);
        if all.contains(x) {
            let j = choose|j: int| 0 <= j < all.len() && all[j] == x;
            if j < before.len() {
                assert(before[j] == x);
                let i = choose|i: int|
                    0 <= i < rest.len() && (#[trigger] rest[i]).surface == (Surface::X11 {
                        window: x,
                    });
                assert(windows[i] == rest[i]);
            } else {
                assert(windows[windows.len() - 1].surface == (Surface::X11 { window: x }));
            }
        }
        if !support.contains_key(x) && exists|i: int|
            0 <= i < windows.len() && (#[trigger] windows[i]).surface == (Surface::X11 {
                window: x,
            }) {
            let i = choose|i: int|
                0 <= i < windows.len() && (#[trigger] windows[i]).surface == (Surface::X11 {
                    window: x,
                });
            if i < rest.len() {
                assert(rest[i] == windows[i]);
                let j = choose|j: int| 0 <= j < before.len() && before[j] == x;
                assert(all[j] == x);
            } else {
                assert(all[all.len() - 1] == x);
            }
        }
    }
}

/// Law: the views leave nothing out: of a wait, of the pending and the finished
/// waits, and of the ping table.
pub proof fn law_views_leave_nothing_out(
    wait: Wait,
    waits: Seq<Wait>,
    done: Seq<Finished>,
    table: PingTable,
    k: int,
    client: u64,
    window: u32,
)
    ensures
        wait@.deadline == wait.deadline,
        wait@.watch == wait.watch,
        wait@.expect_new_window == wait.expect_new_window,
        wait@.known_at_start == wait.known_at_start@,
        wait@.changed == wait.changed@,
        wait@.closed == wait.closed@,
        wait@.quiet_rounds == wait.quiet_rounds,
        wait@.round is Some <==> wait.round is Some,
        wait.round is Some ==> wait@.round->Some_0 == wait.round->Some_0@,
        wait@.round_dirty == wait.round_dirty,
        wait@.quiet_time == wait.quiet_time,
        wait@.require_activity == wait.require_activity,
        wait@.has_activity == wait.has_activity,
        wait@.last_activity == wait.last_activity,
        wait@.snapshot == wait.snapshot,
        wait@.reply == wait.reply,
        wait@.warnings.len() == wait.warnings@.len(),
        0 <= k < wait.warnings@.len() ==> wait@.warnings[k] == wait.warnings@[k]@,
        crate::tracker::wait_views(waits).len() == waits.len(),
        0 <= k < waits.len() ==> crate::tracker::wait_views(waits)[k] == waits[k]@,
        crate::tracker::finished_views(done).len() == done.len(),
        0 <= k < done.len() ==> crate::tracker::finished_views(done)[k] == (
            done[k].wait@,
            done[k].timed_out,
        ),
        table@.contains_key(PingKey::Wayland(client)) <==> table.wayland@.contains_key(client),
        table@.contains_key(PingKey::X11(window)) <==> table.x11@.contains_key(window),
        table.wayland@.contains_key(client) ==> table@[PingKey::Wayland(client)]
            == table.wayland@[client],
        table.x11@.contains_key(window) ==> table@[PingKey::X11(window)] == table.x11@[window],
{
}

/// Law: the clients are asked in the order in which their windows stand in the
/// stack: a window more on top adds its shell client at the end unless it is
/// there already, or its X11 window if that takes part in pings; a window that
/// the wait does not care about adds nothing. X11 windows come behind the shell
/// clients.
pub proof fn law_targets_come_in_stacking_order(
    windows: Seq<Window>,
    w: Window,
    support: Map<u32, bool>,
    watch: Option<u64>,
    known: Set<u64>,
    c: Seq<u64>,
    x: Seq<u32>,
    k: int,
)
    ensures
        crate::tracker::clients(Seq::empty(), watch, known).len() == 0,
        crate::tracker::x11_targets(Seq::empty(), support, watch, known).len() == 0,
        ({
            let before = crate::tracker::clients(windows, watch, known);
            let after = crate::tracker::clients(windows.push(w), watch, known);
            let cared = watch is None || watch == Some(w.id) || !known.contains(w.id);
            match w.surface {
                Surface::Wayland { client: Some(key) } if cared && !before.contains(key) => after
                    == before.push(key),
                _ => after == before,
            }
        }),
        ({
            let before = crate::tracker::x11_targets(windows, support, watch, known);
            let after = crate::tracker::x11_targets(windows.push(w), support, watch, known);
            let cared = watch is None || watch == Some(w.id) || !known.contains(w.id);
            match w.surface {
                Surface::X11 { window } if cared && support.contains_key(window)
                    && support[window] => after == before.push(window),
                _ => after == before,
            }
        }),
        crate::tracker::ping_keys(c, x).len() == c.len() + x.len(),
        0 <= k < c.len() ==> crate::tracker::ping_keys(c, x)[k] == PingKey::Wayland(c[k]),
        0 <= k < x.len() ==> crate::tracker::ping_keys(c, x)[c.len() + k] == PingKey::X11(x[k]),
{
    assert(windows.push(w).drop_last() =~= windows);
}

/// Law: a client that is wanted is added at the end of those that are due,
/// unless it is among them or still owes an answer.
pub proof fn law_due_clients_are_added_at_the_end(
    pings: Map<PingKey, PingState>,
    acc: Seq<PingKey>,
    keys: Seq<PingKey>,
    key: PingKey,
)
    ensures
        crate::tracker::add_due(pings, acc, Seq::empty()) == acc,
        ({
            let before = crate::tracker::add_due(pings, acc, keys);
            let after = crate::tracker::add_due(pings, acc, keys.push(key));
            let owes = pings.contains_key(key) && pings[key].outstanding is Some;
            &&& !owes && !before.contains(key) ==> after == before.push(key)
            &&& owes || before.contains(key) ==> after == before
        }),
{
    assert(keys.push(key).drop_last() =~= keys);
}

/// Law: the waits are served in their order: one more wait adds the clients that
/// it wants behind those of the others if it needs a round, and else nothing.
/// The heartbeat serves everyone in the same way.
pub proof fn law_waits_are_served_in_order<C>(
    state: DesktopState<C>,
    waits: Seq<WaitView>,
    w: WaitView,
    now: u64,
)
    ensures
        state.due(Seq::empty(), now).len() == 0,
        w.round is None && now < w.deadline ==> state.due(waits.push(w), now)
            == crate::tracker::add_due(
            state.ping_states@,
            state.due(waits, now),
            state.round_targets(w),
        ),
        w.round is Some || now >= w.deadline ==> state.due(waits.push(w), now) == state.due(
            waits,
            now,
        ),
        state.heartbeat_keys() == crate::tracker::add_due(
            state.ping_states@,
            Seq::empty(),
            state.heartbeat_targets(),
        ),
{
    assert(waits.push(w).drop_last() =~= waits);
}

/// Law: what is left of a round without the clients that are gone keeps its
/// order.
pub proof fn law_remaining_clients_keep_their_order(
    keys: Seq<PingKey>,
    key: PingKey,
    gone: Seq<PingKey>,
)
    ensures
        crate::tracker::without(Seq::empty(), gone).len() == 0,
        gone.contains(key) ==> crate::tracker::without(keys.push(key), gone)
            == crate::tracker::without(keys, gone),
        !gone.contains(key) ==> crate::tracker::without(keys.push(key), gone)
            == crate::tracker::without(keys, gone).push(key),
{
    assert(keys.push(key).drop_last() =~= keys);
}

/// Law: X11 windows are asked whether they take part in pings in the order in
/// which they stand in the stack.
pub proof fn law_windows_are_asked_in_stacking_order<C>(
    windows: Seq<Window>,
    w: Window,
    support: Map<u32, bool>,
)
    ensures
        DesktopState::<C>::x11_unasked(Seq::empty(), support).len() == 0,
        ({
            let before = DesktopState::<C>::x11_unasked(windows, support);
            let after = DesktopState::<C>::x11_unasked(windows.push(w), support);
            match w.surface {
                Surface::X11 { window } if !support.contains_key(window) => after == before.push(
                    window,
                ),
                _ => after == before,
            }
        }),
{
    assert(windows.push(w).drop_last() =~= windows);
}

/// Law: the ids that waits know from their start are below a bound exactly if
/// each of them is.
pub proof fn law_known_ids_are_below(waits: Seq<WaitView>, next: u64)
    ensures
        crate::tracker::known_below(waits, next) <==> forall|i: int, id: u64|
            0 <= i < waits.len() && #[trigger] waits[i].known_at_start.contains(id) ==> id < next,
{
}

} // verus!
