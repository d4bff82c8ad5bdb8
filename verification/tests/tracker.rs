use desktop_mcp::comp::{DesktopState, Rect, Surface};
use desktop_mcp::ipc::{Include, SnapshotRequest, WaitParams};
use desktop_mcp::keys::{KeyMapper, Lookup};
use desktop_mcp::tracker::{Finished, PingKey, PingOrder, PingOutcome, FROZEN_AFTER};

type Desk = DesktopState<f64>;

const MS: u64 = 1_000_000;

fn desk() -> Desk {
    let none = Lookup { exact: 0, folded: 0 };
    DesktopState::new(1280, 800, 0.0, 0.0, KeyMapper::new(&vec![], none, none))
}

fn with_clients(clients: &[u64]) -> Desk {
    let mut d = desk();
    for client in clients {
        d.new_toplevel(Surface::Wayland { client: Some(*client) }, 0);
    }
    d
}

fn params() -> WaitParams {
    WaitParams::default()
}

fn start(d: &mut Desk, params: WaitParams, reply: u64, now: u64) {
    let snapshot = SnapshotRequest { detail: Include::Changed, screenshots: false };
    d.start_wait(params, snapshot, reply, vec![], now);
}

/// Sends the pings that are due and ticks.
fn tick(d: &mut Desk, now: u64) -> (Vec<PingOrder>, Vec<Finished>) {
    let orders = d.pings_due(now);
    let outcomes = orders
        .iter()
        .map(|o| match o {
            PingOrder::Wayland { .. } => PingOutcome::Sent(1000),
            PingOrder::X11 { serial, .. } => PingOutcome::Sent(*serial),
        })
        .collect();
    let done = d.tracker_tick(&orders, &outcomes, now);
    (orders, done)
}

fn replies(done: &[Finished]) -> Vec<(u64, bool)> {
    done.iter().map(|f| (f.wait.reply, f.timed_out)).collect()
}

#[test]
fn two_quiet_rounds_complete_a_transition() {
    let mut d = with_clients(&[5]);
    start(&mut d, params(), 1, 0);
    let (orders, done) = tick(&mut d, 0);
    assert_eq!(orders, vec![PingOrder::Wayland { client: 5 }]);
    assert!(done.is_empty());
    assert!(d.note_pong(5, 10 * MS).is_empty());
    let (orders, done) = tick(&mut d, 50 * MS);
    assert_eq!(orders.len(), 1);
    assert!(done.is_empty());
    let done = d.note_pong(5, 60 * MS);
    assert_eq!(replies(&done), vec![(1, false)]);
    assert!(d.waits.is_empty());
}

#[test]
fn an_update_during_a_round_starts_the_count_again() {
    let mut d = with_clients(&[5]);
    start(&mut d, params(), 1, 0);
    tick(&mut d, 0);
    d.note_pong(5, 10 * MS);
    tick(&mut d, 50 * MS);
    d.note_window_activity(1, 55 * MS);
    assert!(d.note_pong(5, 60 * MS).is_empty());
    assert_eq!(d.waits[0].quiet_rounds, 0);
    tick(&mut d, 100 * MS);
    assert!(d.note_pong(5, 110 * MS).is_empty());
    tick(&mut d, 150 * MS);
    let done = d.note_pong(5, 160 * MS);
    assert_eq!(replies(&done), vec![(1, false)]);
    assert!(done[0].wait.changed.contains(&1));
}

#[test]
fn an_update_between_rounds_starts_the_count_again() {
    let mut d = with_clients(&[5]);
    start(&mut d, params(), 1, 0);
    tick(&mut d, 0);
    assert!(d.note_pong(5, 10 * MS).is_empty());
    assert_eq!(d.waits[0].quiet_rounds, 1);
    // no round is in flight now
    assert!(d.waits[0].round.is_none());
    d.note_window_activity(1, 30 * MS);
    tick(&mut d, 50 * MS);
    assert_eq!(d.waits[0].quiet_rounds, 0);
    assert!(d.note_pong(5, 60 * MS).is_empty());
    tick(&mut d, 100 * MS);
    let done = d.note_pong(5, 110 * MS);
    assert_eq!(replies(&done), vec![(1, false)]);
}

#[test]
fn a_required_update_is_waited_for_without_a_quiet_time() {
    let mut d = with_clients(&[5]);
    start(&mut d, WaitParams { require_activity: true, ..params() }, 1, 0);
    for k in 0..10 {
        assert!(tick(&mut d, k * 50 * MS).1.is_empty());
        assert!(d.note_pong(5, k * 50 * MS + MS).is_empty());
    }
    d.note_window_activity(1, 510 * MS);
    tick(&mut d, 550 * MS);
    assert!(d.note_pong(5, 551 * MS).is_empty());
    tick(&mut d, 600 * MS);
    let done = d.note_pong(5, 601 * MS);
    assert_eq!(replies(&done), vec![(1, false)]);
}

#[test]
fn a_new_window_is_new_to_every_wait() {
    let mut d = with_clients(&[5, 6]);
    start(&mut d, params(), 1, 0);
    start(&mut d, WaitParams { watch_window: Some(1), ..params() }, 2, 0);
    start(&mut d, WaitParams { watch_window: Some(99), ..params() }, 3, 0);
    d.toplevel_destroyed(2, MS);
    let (id, _) = d.new_toplevel(Surface::Wayland { client: Some(7) }, 2 * MS);
    assert_eq!(id, 3);
    for wait in &d.waits {
        assert!(!wait.known_at_start.contains(&id));
        assert!(wait.changed.contains(&id));
        assert_eq!(wait.last_activity, 2 * MS);
    }
}

#[test]
fn a_restless_desktop_times_out() {
    let mut d = with_clients(&[5]);
    start(&mut d, params(), 1, 0);
    let mut now = 0;
    loop {
        let (_, done) = tick(&mut d, now);
        if !done.is_empty() {
            assert_eq!(replies(&done), vec![(1, true)]);
            assert_eq!(now, 3000 * MS);
            break;
        }
        d.note_window_activity(1, now);
        assert!(d.note_pong(5, now).is_empty());
        now += 50 * MS;
    }
}

#[test]
fn a_desktop_without_clients_settles_by_itself() {
    let mut d = desk();
    start(&mut d, params(), 9, 0);
    let (orders, done) = tick(&mut d, 0);
    assert!(orders.is_empty());
    assert!(done.is_empty());
    let (_, done) = tick(&mut d, 50 * MS);
    assert_eq!(replies(&done), vec![(9, false)]);
}

#[test]
fn finished_waits_come_youngest_first() {
    let mut d = desk();
    start(&mut d, params(), 1, 0);
    start(&mut d, WaitParams { timeout_ms: 10, ..params() }, 2, 0);
    start(&mut d, params(), 3, 0);
    tick(&mut d, 0);
    let (_, done) = tick(&mut d, 20 * MS);
    assert_eq!(replies(&done), vec![(3, false), (2, true), (1, false)]);
}

#[test]
fn waits_that_go_on_keep_their_order() {
    let mut d = with_clients(&[5]);
    for reply in 1..=3 {
        let timeout_ms = if reply == 2 { 10 } else { 3000 };
        start(&mut d, WaitParams { timeout_ms, ..params() }, reply, 0);
    }
    tick(&mut d, 0);
    let done = d.evaluate_waits(10 * MS);
    assert_eq!(replies(&done), vec![(2, true)]);
    let left: Vec<u64> = d.waits.iter().map(|w| w.reply).collect();
    assert_eq!(left, vec![1, 3]);
}

#[test]
fn watching_one_window_ignores_the_others() {
    let mut d = with_clients(&[5, 6]);
    start(&mut d, WaitParams { watch_window: Some(1), ..params() }, 1, 0);
    let (orders, _) = tick(&mut d, 0);
    assert_eq!(orders, vec![PingOrder::Wayland { client: 5 }]);
    d.note_window_activity(2, MS);
    d.note_window_closed(2, MS);
    assert!(!d.waits[0].has_activity);
    assert!(d.waits[0].closed.is_empty());
    // a window that was not there before counts
    d.note_window_activity(3, 2 * MS);
    assert!(d.waits[0].changed.contains(&3));
    assert!(d.waits[0].round_dirty);
    assert_eq!(d.waits[0].last_activity, 2 * MS);
}

#[test]
fn launching_waits_for_a_window() {
    let mut d = desk();
    start(&mut d, WaitParams { expect_new_window: true, timeout_ms: 8000, ..params() }, 4, 0);
    for k in 0..20 {
        let (_, done) = tick(&mut d, k * 50 * MS);
        assert!(done.is_empty());
        assert!(d.waits[0].round.is_none());
    }
    d.new_toplevel(Surface::Wayland { client: Some(5) }, 1000 * MS);
    tick(&mut d, 1050 * MS);
    d.note_pong(5, 1051 * MS);
    tick(&mut d, 1100 * MS);
    let done = d.note_pong(5, 1101 * MS);
    assert_eq!(replies(&done), vec![(4, false)]);
}

#[test]
fn waiting_for_the_next_screen_needs_an_update() {
    let mut d = with_clients(&[5]);
    let next = WaitParams {
        timeout_ms: 60_000,
        quiet_time_ms: Some(1500),
        require_activity: true,
        ..params()
    };
    start(&mut d, next, 1, 0);
    for k in 0..100 {
        assert!(tick(&mut d, k * 50 * MS).1.is_empty());
        assert!(d.note_pong(5, k * 50 * MS + MS).is_empty());
    }
    d.note_window_activity(1, 5000 * MS);
    let mut now = 5000 * MS;
    loop {
        tick(&mut d, now);
        let done = d.note_pong(5, now);
        if !done.is_empty() {
            assert_eq!(now, 6500 * MS);
            assert!(!done[0].timed_out);
            break;
        }
        now += 50 * MS;
    }
}

#[test]
fn silence_suffices_if_no_update_is_required() {
    let mut d = desk();
    start(&mut d, WaitParams { quiet_time_ms: Some(100), ..params() }, 1, 0);
    assert!(tick(&mut d, 99 * MS).1.is_empty());
    assert_eq!(replies(&tick(&mut d, 100 * MS).1), vec![(1, false)]);
}

#[test]
fn no_client_is_pinged_twice_at_a_time() {
    let mut d = with_clients(&[5, 5, 6]);
    start(&mut d, params(), 1, 0);
    start(&mut d, params(), 2, 0);
    let (orders, _) = tick(&mut d, 0);
    assert_eq!(
        orders,
        vec![PingOrder::Wayland { client: 5 }, PingOrder::Wayland { client: 6 }]
    );
    d.note_pong(6, MS);
    assert_eq!(d.heartbeat(), vec![PingOrder::Wayland { client: 6 }]);
    start(&mut d, params(), 3, MS);
    assert_eq!(d.pings_due(MS), vec![PingOrder::Wayland { client: 6 }]);
}

#[test]
fn clients_that_are_gone_are_not_waited_for() {
    let mut d = with_clients(&[5]);
    start(&mut d, params(), 1, 0);
    for now in [0, 50 * MS] {
        let orders = d.pings_due(now);
        assert_eq!(orders.len(), 1);
        let done = d.tracker_tick(&orders, &vec![PingOutcome::Gone], now);
        assert_eq!(done.len(), if now == 0 { 0 } else { 1 });
    }
}

#[test]
fn a_ping_that_was_not_sent_does_not_hold_up_a_round() {
    let mut d = with_clients(&[5]);
    start(&mut d, params(), 1, 0);
    for now in [0, 50 * MS] {
        let orders = d.pings_due(now);
        let done = d.tracker_tick(&orders, &vec![PingOutcome::Failed], now);
        assert_eq!(done.len(), if now == 0 { 0 } else { 1 });
    }
}

#[test]
fn silence_for_ten_seconds_is_frozen() {
    let mut d = with_clients(&[5]);
    let key = PingKey::Wayland(5);
    assert!(!d.client_frozen(key, 100 * FROZEN_AFTER));
    let orders = d.heartbeat();
    d.record_pings(&orders, &vec![PingOutcome::Sent(3)], 7);
    assert!(!d.client_frozen(key, 7 + FROZEN_AFTER));
    assert!(d.client_frozen(key, 8 + FROZEN_AFTER));
    assert!(d.heartbeat().is_empty());
    d.note_pong(5, 9 + FROZEN_AFTER);
    assert!(!d.client_frozen(key, 100 * FROZEN_AFTER));
}

fn x11_desk() -> Desk {
    let mut d = desk();
    d.new_toplevel(Surface::X11 { window: 40 }, 0);
    d.new_toplevel(Surface::X11 { window: 41 }, 0);
    d
}

#[test]
fn x11_windows_are_asked_once_whether_they_take_pings() {
    let mut d = x11_desk();
    assert_eq!(d.x11_support_queries(), vec![40, 41]);
    d.note_x11_support(40, true);
    d.note_x11_support(40, false);
    assert_eq!(d.x11_support_queries(), vec![41]);
    d.note_x11_support(41, false);
    assert!(d.x11_support_queries().is_empty());
    let none = std::collections::HashSet::new();
    assert_eq!(d.wait_x11_targets(None, &none), vec![40]);
    assert!(d.wait_targets(None, &none).is_empty());
    assert!(d.wait_involves_unpingable_x11(None, &none));
    let both = [1, 2].into_iter().collect();
    assert!(!d.wait_involves_unpingable_x11(Some(1), &both));
    assert!(d.wait_involves_unpingable_x11(Some(2), &both));
}

#[test]
fn x11_pongs_must_carry_the_serial() {
    let mut d = x11_desk();
    d.note_x11_support(40, true);
    d.note_x11_support(41, true);
    let orders = d.heartbeat();
    assert_eq!(
        orders,
        vec![
            PingOrder::X11 { window: 40, serial: 1 },
            PingOrder::X11 { window: 41, serial: 2 },
        ]
    );
    d.record_pings(&orders, &vec![PingOutcome::Sent(1), PingOutcome::Sent(2)], 0);
    d.note_x11_pong(40, 2, 5);
    assert!(d.client_frozen(PingKey::X11(40), FROZEN_AFTER + 1));
    d.note_x11_pong(40, 1, 5);
    assert!(!d.client_frozen(PingKey::X11(40), FROZEN_AFTER + 1));
    assert!(d.client_frozen(PingKey::X11(41), FROZEN_AFTER + 1));
    // the next serial goes on
    assert_eq!(d.heartbeat(), vec![PingOrder::X11 { window: 40, serial: 3 }]);
}

#[test]
fn x11_serials_wrap_around() {
    let mut d = x11_desk();
    d.note_x11_support(40, true);
    d.note_x11_support(41, true);
    d.next_x11_serial = u32::MAX;
    assert_eq!(
        d.heartbeat(),
        vec![
            PingOrder::X11 { window: 40, serial: u32::MAX },
            PingOrder::X11 { window: 41, serial: 0 },
        ]
    );
    assert_eq!(d.next_x11_serial, 1);
}

#[test]
fn unpingable_windows_get_a_grace() {
    let mut d = x11_desk();
    d.note_x11_support(40, false);
    d.note_x11_support(41, false);
    start(&mut d, params(), 1, 0);
    d.note_window_activity(1, 100 * MS);
    let mut now = 100 * MS;
    loop {
        let (orders, done) = tick(&mut d, now);
        assert!(orders.is_empty());
        if !done.is_empty() {
            assert_eq!(replies(&done), vec![(1, false)]);
            assert_eq!(now, 500 * MS);
            break;
        }
        now += 50 * MS;
    }
}

#[test]
fn a_launch_of_an_unpingable_window_ends_after_the_grace() {
    let mut d = desk();
    start(&mut d, WaitParams { expect_new_window: true, ..params() }, 1, 0);
    assert!(tick(&mut d, 0).1.is_empty());
    d.new_toplevel(Surface::X11 { window: 40 }, 100 * MS);
    d.note_x11_support(40, false);
    let mut now = 150 * MS;
    loop {
        let (_, done) = tick(&mut d, now);
        if !done.is_empty() {
            assert_eq!(replies(&done), vec![(1, false)]);
            assert_eq!(now, 500 * MS);
            break;
        }
        now += 50 * MS;
    }
}

#[test]
fn the_heartbeat_reaches_every_client_once() {
    let mut d = with_clients(&[5, 6, 5]);
    d.new_toplevel(Surface::X11 { window: 40 }, 0);
    d.new_toplevel(Surface::X11 { window: 41 }, 0);
    d.note_x11_support(40, true);
    d.note_x11_support(41, false);
    let orders = d.heartbeat();
    assert_eq!(
        orders,
        vec![
            PingOrder::Wayland { client: 5 },
            PingOrder::Wayland { client: 6 },
            PingOrder::X11 { window: 40, serial: 1 },
        ]
    );
    d.record_pings(&orders, &vec![PingOutcome::Sent(1); 3], 0);
    assert!(d.heartbeat().is_empty());
    d.note_pong(6, MS);
    assert_eq!(d.heartbeat(), vec![PingOrder::Wayland { client: 6 }]);
}

#[test]
fn legacy_x11_windows_never_freeze() {
    let mut d = x11_desk();
    d.note_x11_support(40, false);
    d.note_x11_support(41, false);
    assert!(d.heartbeat().is_empty());
    assert!(!d.client_frozen(PingKey::X11(40), u64::MAX));
}

#[test]
fn windows_without_a_client_are_not_pinged() {
    let mut d = desk();
    d.new_toplevel(Surface::Wayland { client: None }, 0);
    let area = Rect { x: 0, y: 0, width: 1, height: 1 };
    d.observe_window(
        1,
        Surface::Wayland { client: None },
        Some(area),
        String::new(),
        String::new(),
        None,
    );
    assert!(d.heartbeat().is_empty());
}
