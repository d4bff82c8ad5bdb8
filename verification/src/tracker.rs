//! Transition tracking: after an action is injected, wait until the UI has
//! settled. A transition is considered complete once two consecutive
//! ping-pong rounds to the relevant clients passed without any surface
//! commits. Clients whose ping goes unanswered for more than 10 seconds are
//! reported as frozen.
//!
//! Wayland clients are pinged through xdg-shell; X11 windows through
//! `_NET_WM_PING`. Both feed the same bookkeeping, keyed by [`PingKey`].
//! Instants are nanoseconds since startup.

pub mod effects;
pub mod laws;

use std::collections::{HashMap, HashSet};

use vstd::prelude::*;

use crate::comp::{DesktopState, Surface, Window};
use crate::ipc::{SnapshotRequest, WaitParams};

verus! {

broadcast use vstd::std_specs::hash::group_hash_axioms;

/// A ping unanswered for longer than this marks its client as frozen.
pub const FROZEN_AFTER: u64 = 10_000_000_000;

/// How many quiet ping-pong rounds mark a transition as complete.
pub const QUIET_ROUNDS: u32 = 2;

/// Minimum quiet period for waits involving X11 windows that cannot be pinged
/// (they don't advertise `_NET_WM_PING`). Long enough to catch a typical
/// redraw after injected input.
pub const X11_SETTLE_GRACE: u64 = 400_000_000;

pub const NANOS_PER_MILLI: u128 = 1_000_000;

/// Identifies a pingable client: a Wayland xdg shell client, or an XWayland
/// client window pinged via `_NET_WM_PING`.
#[derive(Debug, Clone, Copy, PartialEq, Eq, Hash, Structural)]
pub enum PingKey {
    Wayland(u64),
    X11(u32),
}

#[derive(Debug, Clone, Copy, PartialEq, Eq)]
pub struct PingState {
    /// Serial and send time of a ping that has not been answered yet.
    pub outstanding: Option<(u32, u64)>,
    pub last_pong: u64,
}

/// The ping state of every client that was pinged or answered so far.
pub struct PingTable {
    pub wayland: HashMap<u64, PingState>,
    pub x11: HashMap<u32, PingState>,
}

impl View for PingTable {
    type V = Map<PingKey, PingState>;

    open spec fn view(&self) -> Map<PingKey, PingState> {
        Map::new(
            |k: PingKey|
                match k {
                    PingKey::Wayland(c) => self.wayland@.contains_key(c),
                    PingKey::X11(w) => self.x11@.contains_key(w),
                },
            |k: PingKey|
                match k {
                    PingKey::Wayland(c) => self.wayland@[c],
                    PingKey::X11(w) => self.x11@[w],
                },
        )
    }
}

/// Whether a client still owes the answer to a ping.
pub open spec fn awaits(pings: Map<PingKey, PingState>, key: PingKey) -> bool {
    pings.contains_key(key) && pings[key].outstanding is Some
}

impl PingTable {
    pub fn new() -> (r: Self)
        ensures
            r@ == Map::<PingKey, PingState>::empty(),
    {
        let r = PingTable { wayland: HashMap::new(), x11: HashMap::new() };
        assert(r@ =~= Map::<PingKey, PingState>::empty());
        r
    }

    pub fn get(&self, key: PingKey) -> (r: Option<PingState>)
        ensures
            r is Some <==> self@.contains_key(key),
            r matches Some(p) ==> p == self@[key],
    {
        match key {
            PingKey::Wayland(c) => match self.wayland.get(&c) {
                Some(p) => Some(*p),
                None => None,
            },
            PingKey::X11(w) => match self.x11.get(&w) {
                Some(p) => Some(*p),
                None => None,
            },
        }
    }

    pub fn set(&mut self, key: PingKey, state: PingState)
        ensures
            final(self)@ == old(self)@.insert(key, state),
    {
        match key {
            PingKey::Wayland(c) => {
                self.wayland.insert(c, state);
            },
            PingKey::X11(w) => {
                self.x11.insert(w, state);
            },
        }
        assert(self@ =~= old(self)@.insert(key, state));
    }

    /// Whether the client still owes the answer to a ping.
    pub fn awaits(&self, key: PingKey) -> (r: bool)
        ensures
            r == awaits(self@, key),
    {
        match self.get(key) {
            Some(p) => p.outstanding.is_some(),
            None => false,
        }
    }
}

/// A tool call that waits for the UI to settle.
pub struct Wait {
    pub deadline: u128,
    pub watch: Option<u64>,
    pub expect_new_window: bool,
    pub known_at_start: HashSet<u64>,
    pub changed: HashSet<u64>,
    pub closed: Vec<u64>,
    pub quiet_rounds: u32,
    /// Ping keys the current round is waiting on; None = no round in flight.
    pub round: Option<Vec<PingKey>>,
    pub round_dirty: bool,
    /// Time-based settling: settled once this much time passed without
    /// updates. None = two-quiet-rounds rule.
    pub quiet_time: Option<u128>,
    /// Don't finish before at least one update was observed.
    pub require_activity: bool,
    pub has_activity: bool,
    pub last_activity: u64,
    pub snapshot: SnapshotRequest,
    /// Names the channel on which the caller waits for the answer.
    pub reply: u64,
    pub warnings: Vec<String>,
}

/// The mathematical content of a [`Wait`].
pub struct WaitView {
    pub deadline: u128,
    pub watch: Option<u64>,
    pub expect_new_window: bool,
    pub known_at_start: Set<u64>,
    pub changed: Set<u64>,
    pub closed: Seq<u64>,
    pub quiet_rounds: u32,
    pub round: Option<Seq<PingKey>>,
    pub round_dirty: bool,
    pub quiet_time: Option<u128>,
    pub require_activity: bool,
    pub has_activity: bool,
    pub last_activity: u64,
    pub snapshot: SnapshotRequest,
    pub reply: u64,
    pub warnings: Seq<Seq<char>>,
}

impl View for Wait {
    type V = WaitView;

    open spec fn view(&self) -> WaitView {
        WaitView {
            deadline: self.deadline,
            watch: self.watch,
            expect_new_window: self.expect_new_window,
            known_at_start: self.known_at_start@,
            changed: self.changed@,
            closed: self.closed@,
            quiet_rounds: self.quiet_rounds,
            round: match self.round {
                Some(keys) => Some(keys@),
                None => None,
            },
            round_dirty: self.round_dirty,
            quiet_time: self.quiet_time,
            require_activity: self.require_activity,
            has_activity: self.has_activity,
            last_activity: self.last_activity,
            snapshot: self.snapshot,
            reply: self.reply,
            warnings: crate::text::texts(self.warnings@),
        }
    }
}

/// The contents of the pending waits.
pub open spec fn wait_views(waits: Seq<Wait>) -> Seq<WaitView> {
    waits.map_values(|w: Wait| w@)
}

/// Whether the ids that the waits know from their start are below `next`.
pub open spec fn known_below(waits: Seq<WaitView>, next: u64) -> bool {
    forall|i: int, id: u64|
        0 <= i < waits.len() && #[trigger] waits[i].known_at_start.contains(id) ==> id < next
}

/// Whether a wait cares about a window: the watched one and those that
/// appeared after the wait started, or all if nothing specific is watched.
pub open spec fn relevant(watch: Option<u64>, known_at_start: Set<u64>, id: u64) -> bool {
    match watch {
        None => true,
        Some(watched) => watched == id || !known_at_start.contains(id),
    }
}

/// Nanoseconds from `then` to `now`, 0 if `then` is later.
pub open spec fn elapsed(then: u64, now: u64) -> int {
    if now < then {
        0
    } else {
        now - then
    }
}

impl WaitView {
    pub open spec fn cares(self, id: u64) -> bool {
        relevant(self.watch, self.known_at_start, id)
    }

    /// An update was seen at `now`.
    pub open spec fn touched(self, now: u64) -> WaitView {
        WaitView { round_dirty: true, has_activity: true, last_activity: now, ..self }
    }

    /// The wait after a window committed something.
    pub open spec fn after_activity(self, id: u64, now: u64) -> WaitView {
        if self.cares(id) {
            WaitView { changed: self.changed.insert(id), ..self }.touched(now)
        } else {
            self
        }
    }

    /// The wait after a window closed.
    pub open spec fn after_close(self, id: u64, now: u64) -> WaitView {
        if self.cares(id) {
            WaitView { closed: self.closed.push(id), ..self }.touched(now)
        } else {
            self
        }
    }

    /// The wait with a ping round in flight. An update since the last round
    /// makes the count of quiet rounds start again.
    pub open spec fn with_round(self, keys: Seq<PingKey>) -> WaitView {
        WaitView {
            round: Some(keys),
            round_dirty: false,
            quiet_rounds: if self.round_dirty {
                0
            } else {
                self.quiet_rounds
            },
            ..self
        }
    }

    /// The wait after its round has been answered by everyone.
    pub open spec fn after_round(self) -> WaitView {
        WaitView {
            quiet_rounds: if self.round_dirty {
                0
            } else if self.quiet_rounds == u32::MAX {
                u32::MAX
            } else {
                (self.quiet_rounds + 1) as u32
            },
            round: None,
            round_dirty: false,
            ..self
        }
    }

    /// Whether the settling rule of the wait is met: two quiet rounds, or the
    /// requested quiet time, and an update, where one is required.
    pub open spec fn settled(self, now: u64) -> bool {
        &&& !self.require_activity || self.has_activity
        &&& match self.quiet_time {
            None => self.quiet_rounds >= QUIET_ROUNDS,
            Some(quiet_time) => elapsed(self.last_activity, now) >= quiet_time,
        }
    }
}

/// A wait as it starts.
pub open spec fn fresh_wait(
    params: WaitParams,
    known_at_start: Set<u64>,
    snapshot: SnapshotRequest,
    reply: u64,
    warnings: Seq<Seq<char>>,
    now: u64,
) -> WaitView {
    WaitView {
        deadline: (now + params.timeout_ms * NANOS_PER_MILLI) as u128,
        watch: params.watch_window,
        expect_new_window: params.expect_new_window,
        known_at_start,
        changed: Set::empty(),
        closed: Seq::empty(),
        quiet_rounds: 0,
        round: None,
        round_dirty: false,
        quiet_time: match params.quiet_time_ms {
            Some(ms) => Some((ms * NANOS_PER_MILLI) as u128),
            None => None,
        },
        require_activity: params.require_activity,
        has_activity: false,
        last_activity: now,
        snapshot,
        reply,
        warnings,
    }
}

/// Milliseconds in nanoseconds.
fn nanos(ms: u64) -> (r: u128)
    ensures
        r == ms * NANOS_PER_MILLI,
        r <= u64::MAX * NANOS_PER_MILLI,
{
    (ms as u128) * NANOS_PER_MILLI
}

/// Nanoseconds from `then` to `now`, 0 if `then` is later.
fn elapsed_nanos(then: u64, now: u64) -> (r: u64)
    ensures
        r == elapsed(then, now),
{
    now.saturating_sub(then)
}

/// Whether a wait cares about a window.
pub fn is_relevant(watch: Option<u64>, known_at_start: &HashSet<u64>, id: u64) -> (r: bool)
    ensures
        r == relevant(watch, known_at_start@, id),
{
    match watch {
        None => true,
        Some(watched) => watched == id || !known_at_start.contains(&id),
    }
}

impl Wait {
    fn note_activity(&mut self, id: u64, now: u64)
        ensures
            final(self)@ == old(self)@.after_activity(id, now),
    {
        if is_relevant(self.watch, &self.known_at_start, id) {
            self.changed.insert(id);
            self.round_dirty = true;
            self.has_activity = true;
            self.last_activity = now;
        }
    }

    fn note_close(&mut self, id: u64, now: u64)
        ensures
            final(self)@ == old(self)@.after_close(id, now),
    {
        if is_relevant(self.watch, &self.known_at_start, id) {
            self.closed.push(id);
            self.round_dirty = true;
            self.has_activity = true;
            self.last_activity = now;
        }
    }
}

/// A wait that is over.
pub struct Finished {
    pub wait: Wait,
    /// The transition did not converge before the timeout.
    pub timed_out: bool,
}

/// The contents of finished waits.
pub open spec fn finished_views(done: Seq<Finished>) -> Seq<(WaitView, bool)> {
    done.map_values(|f: Finished| (f.wait@, f.timed_out))
}

/// Whether everyone in a round has answered.
pub open spec fn round_complete(pings: Map<PingKey, PingState>, round: Seq<PingKey>) -> bool {
    forall|i: int| 0 <= i < round.len() ==> !awaits(pings, #[trigger] round[i])
}

proof fn lemma_known_below(before: Seq<WaitView>, after: Seq<WaitView>, next: u64)
    requires
        before.len() == after.len(),
        forall|i: int|
            0 <= i < after.len() ==> (#[trigger] after[i]).known_at_start
                == before[i].known_at_start,
    ensures
        known_below(before, next) ==> known_below(after, next),
{
    if known_below(before, next) {
        assert forall|i: int, id: u64|
            0 <= i < after.len() && #[trigger] after[i].known_at_start.contains(
                id,
            ) implies id < next by {
            assert(before[i].known_at_start.contains(id));
        }
    }
}

impl<C> DesktopState<C> {
    /// A launch still waits for the first window of the launched program.
    pub open spec fn expecting(self, w: WaitView) -> bool {
        w.expect_new_window && crate::comp::ids(self.windows@).subset_of(w.known_at_start)
    }

    /// Whether a window is an X11 window that takes no part in pings.
    pub open spec fn unpingable(self, window: Window) -> bool {
        match window.surface {
            Surface::X11 { window: w } => !(self.x11_ping_support@.contains_key(w)
                && self.x11_ping_support@[w]),
            Surface::Wayland { .. } => false,
        }
    }

    /// Whether a window that the wait cares about cannot be pinged.
    pub open spec fn needs_grace(self, w: WaitView) -> bool {
        exists|i: int|
            0 <= i < self.windows@.len() && w.cares((#[trigger] self.windows@[i]).id)
                && self.unpingable(self.windows@[i])
    }

    /// The time of the wait is up.
    pub open spec fn expired(w: WaitView, now: u64) -> bool {
        now as u128 >= w.deadline
    }

    /// The round of a wait that is neither over nor expecting a window has
    /// been answered by everyone.
    pub open spec fn round_ends(self, w: WaitView, now: u64) -> bool {
        &&& !Self::expired(w, now)
        &&& !self.expecting(w)
        &&& w.round is Some
        &&& round_complete(self.ping_states@, w.round->Some_0)
    }

    /// A wait after it has been looked at.
    pub open spec fn advanced(self, w: WaitView, now: u64) -> WaitView {
        if Self::expired(w, now) {
            w
        } else if self.expecting(w) {
            WaitView { round: None, ..w }
        } else if self.round_ends(w, now) {
            w.after_round()
        } else {
            w
        }
    }

    /// Whether a wait is over, and if so whether it timed out.
    pub open spec fn verdict(self, w: WaitView, now: u64) -> Option<bool> {
        if Self::expired(w, now) {
            Some(true)
        } else if self.round_ends(w, now) && w.after_round().settled(now) && (!self.needs_grace(w)
            || elapsed(w.last_activity, now) >= X11_SETTLE_GRACE) {
            Some(false)
        } else {
            None
        }
    }

    /// The waits that go on, in their order.
    pub open spec fn kept(self, waits: Seq<WaitView>, now: u64) -> Seq<WaitView>
        decreases waits.len(),
    {
        if waits.len() == 0 {
            Seq::empty()
        } else {
            let before = self.kept(waits.drop_last(), now);
            if self.verdict(waits.last(), now) is None {
                before.push(self.advanced(waits.last(), now))
            } else {
                before
            }
        }
    }

    /// The waits that are over, the youngest first, with whether they timed
    /// out.
    pub open spec fn over(self, waits: Seq<WaitView>, now: u64) -> Seq<(WaitView, bool)>
        decreases waits.len(),
    {
        if waits.len() == 0 {
            Seq::empty()
        } else {
            let older = self.over(waits.drop_last(), now);
            match self.verdict(waits.last(), now) {
                Some(timed_out) => seq![(self.advanced(waits.last(), now), timed_out)] + older,
                None => older,
            }
        }
    }

    proof fn lemma_kept_known(self, waits: Seq<WaitView>, next: u64, now: u64)
        ensures
            known_below(waits, next) ==> known_below(self.kept(waits, now), next),
        decreases waits.len(),
    {
        if waits.len() > 0 && known_below(waits, next) {
            let rest = waits.drop_last();
            let before = self.kept(rest, now);
            let after = self.kept(waits, now);
            assert forall|i: int, id: u64|
                0 <= i < rest.len() && #[trigger] rest[i].known_at_start.contains(
                    id,
                ) implies id < next by {
                assert(waits[i].known_at_start.contains(id));
            }
            self.lemma_kept_known(rest, next, now);
            assert forall|i: int, id: u64|
                0 <= i < after.len() && #[trigger] after[i].known_at_start.contains(
                    id,
                ) implies id < next by {
                if i < before.len() {
                    assert(before[i].known_at_start.contains(id));
                } else {
                    assert(waits[waits.len() - 1].known_at_start.contains(id));
                }
            }
        }
    }

    /// Starts to wait for the UI to settle.
    pub fn start_wait(
        &mut self,
        params: WaitParams,
        snapshot: SnapshotRequest,
        reply: u64,
        warnings: Vec<String>,
        now: u64,
    )
        ensures
            *final(self) == (DesktopState { waits: final(self).waits, ..*old(self) }),
            wait_views(final(self).waits@) == wait_views(old(self).waits@).push(
                fresh_wait(
                    params,
                    crate::comp::ids(old(self).windows@),
                    snapshot,
                    reply,
                    crate::text::texts(warnings@),
                    now,
                ),
            ),
            old(self).wf() ==> final(self).wf(),
    {
        let known_at_start = self.window_ids();
        let wait = Wait {
            deadline: (now as u128) + nanos(params.timeout_ms),
            watch: params.watch_window,
            expect_new_window: params.expect_new_window,
            known_at_start,
            changed: HashSet::new(),
            closed: Vec::new(),
            quiet_rounds: 0,
            round: None,
            round_dirty: false,
            quiet_time: match params.quiet_time_ms {
                Some(ms) => Some(nanos(ms)),
                None => None,
            },
            require_activity: params.require_activity,
            has_activity: false,
            last_activity: now,
            snapshot,
            reply,
            warnings,
        };
        assert(wait@ == fresh_wait(
            params,
            crate::comp::ids(old(self).windows@),
            snapshot,
            reply,
            crate::text::texts(warnings@),
            now,
        ));
        self.waits.push(wait);
        assert(wait_views(self.waits@) =~= wait_views(old(self).waits@).push(wait@));
        proof {
            if old(self).wf() {
                let before = wait_views(old(self).waits@);
                let after = wait_views(self.waits@);
                assert forall|i: int, id: u64|
                    0 <= i < after.len() && #[trigger] after[i].known_at_start.contains(
                        id,
                    ) implies id < self.next_window_id by {
                    if i < before.len() {
                        assert(before[i].known_at_start.contains(id));
                    } else {
                        assert(crate::comp::has_id(self.windows@, id));
                    }
                }
            }
        }
    }

    /// The ids of all windows.
    fn window_ids(&self) -> (r: HashSet<u64>)
        ensures
            r@ == crate::comp::ids(self.windows@),
    {
        let mut out: HashSet<u64> = HashSet::new();
        for i in 0..self.windows.len()
            invariant
                out@ == crate::comp::ids(self.windows@.take(i as int)),
        {
            let ghost before = self.windows@.take(i as int);
            let ghost after = self.windows@.take(i + 1);
            out.insert(self.windows[i].id);
            proof {
                assert forall|id: u64| crate::comp::has_id(after, id) == (crate::comp::has_id(
                    before,
                    id,
                ) || id == self.windows@[i as int].id) by {
                    if crate::comp::has_id(before, id) {
                        let k = choose|k: int| 0 <= k < before.len() && before[k].id == id;
                        assert(after[k].id == id);
                    }
                    assert(after[i as int] == self.windows@[i as int]);
                    if crate::comp::has_id(after, id) {
                        let k = choose|k: int| 0 <= k < after.len() && after[k].id == id;
                        if k < i {
                            assert(before[k].id == id);
                        }
                    }
                }
                assert(out@ =~= crate::comp::ids(after));
            }
        }
        assert(self.windows@.take(self.windows@.len() as int) == self.windows@);
        out
    }

    /// A window committed something (or appeared/closed a popup).
    pub fn note_window_activity(&mut self, id: u64, now: u64)
        ensures
            *final(self) == (DesktopState { waits: final(self).waits, ..*old(self) }),
            wait_views(final(self).waits@) == wait_views(old(self).waits@).map_values(
                |w: WaitView| w.after_activity(id, now),
            ),
            old(self).wf() ==> final(self).wf(),
    {
        let n = self.waits.len();
        for i in 0..n
            invariant
                *self == (DesktopState { waits: self.waits, ..*old(self) }),
                n == self.waits@.len(),
                n == old(self).waits@.len(),
                forall|j: int|
                    0 <= j < i ==> (#[trigger] self.waits@[j])@ == old(
                        self,
                    ).waits@[j]@.after_activity(id, now),
                forall|j: int| i <= j < n ==> #[trigger] self.waits@[j] == old(self).waits@[j],
        {
            let wait = &mut self.waits[i];
            wait.note_activity(id, now);
        }
        assert(wait_views(self.waits@) =~= wait_views(old(self).waits@).map_values(
            |w: WaitView| w.after_activity(id, now),
        ));
        proof {
            lemma_known_below(
                wait_views(old(self).waits@),
                wait_views(self.waits@),
                self.next_window_id,
            );
        }
    }

    /// A window is gone.
    pub fn note_window_closed(&mut self, id: u64, now: u64)
        ensures
            *final(self) == (DesktopState { waits: final(self).waits, ..*old(self) }),
            wait_views(final(self).waits@) == wait_views(old(self).waits@).map_values(
                |w: WaitView| w.after_close(id, now),
            ),
            old(self).wf() ==> final(self).wf(),
    {
        let n = self.waits.len();
        for i in 0..n
            invariant
                *self == (DesktopState { waits: self.waits, ..*old(self) }),
                n == self.waits@.len(),
                n == old(self).waits@.len(),
                forall|j: int|
                    0 <= j < i ==> (#[trigger] self.waits@[j])@ == old(self).waits@[j]@.after_close(
                        id,
                        now,
                    ),
                forall|j: int| i <= j < n ==> #[trigger] self.waits@[j] == old(self).waits@[j],
        {
            let wait = &mut self.waits[i];
            wait.note_close(id, now);
        }
        assert(wait_views(self.waits@) =~= wait_views(old(self).waits@).map_values(
            |w: WaitView| w.after_close(id, now),
        ));
        proof {
            lemma_known_below(
                wait_views(old(self).waits@),
                wait_views(self.waits@),
                self.next_window_id,
            );
        }
    }
}

/// The shell clients of the windows that a wait cares about, each once.
pub open spec fn clients(windows: Seq<Window>, watch: Option<u64>, known: Set<u64>) -> Seq<u64>
    decreases windows.len(),
{
    if windows.len() == 0 {
        Seq::empty()
    } else {
        let before = clients(windows.drop_last(), watch, known);
        match windows.last().surface {
            Surface::Wayland { client: Some(key) } => if relevant(watch, known, windows.last().id)
                && !before.contains(key) {
                before.push(key)
            } else {
                before
            },
            _ => before,
        }
    }
}

/// The X11 windows that a wait cares about and that answer pings.
pub open spec fn x11_targets(
    windows: Seq<Window>,
    support: Map<u32, bool>,
    watch: Option<u64>,
    known: Set<u64>,
) -> Seq<u32>
    decreases windows.len(),
{
    if windows.len() == 0 {
        Seq::empty()
    } else {
        let before = x11_targets(windows.drop_last(), support, watch, known);
        match windows.last().surface {
            Surface::X11 { window } => if relevant(watch, known, windows.last().id)
                && support.contains_key(window) && support[window] {
                before.push(window)
            } else {
                before
            },
            _ => before,
        }
    }
}

/// The keys of shell clients and of X11 windows, in this order.
pub open spec fn ping_keys(clients: Seq<u64>, x11: Seq<u32>) -> Seq<PingKey> {
    clients.map_values(|c: u64| PingKey::Wayland(c)) + x11.map_values(|w: u32| PingKey::X11(w))
}

/// A ping to send.
#[derive(Debug, Clone, Copy, PartialEq, Eq, Structural)]
pub enum PingOrder {
    /// The display server picks the serial.
    Wayland { client: u64 },
    X11 { window: u32, serial: u32 },
}

impl PingOrder {
    pub open spec fn key(self) -> PingKey {
        match self {
            PingOrder::Wayland { client } => PingKey::Wayland(client),
            PingOrder::X11 { window, .. } => PingKey::X11(window),
        }
    }

    /// The client that the ping goes to.
    pub fn ping_key(&self) -> (r: PingKey)
        ensures
            r == self.key(),
    {
        match *self {
            PingOrder::Wayland { client } => PingKey::Wayland(client),
            PingOrder::X11 { window, .. } => PingKey::X11(window),
        }
    }
}

/// What became of a ping.
#[derive(Debug, Clone, Copy, PartialEq, Eq, Structural)]
pub enum PingOutcome {
    /// Sent under this serial.
    Sent(u32),
    /// Not sent, but the client is still there.
    Failed,
    /// There is nobody to ping any more.
    Gone,
}

/// The serial that follows another one.
pub open spec fn next_serial(serial: u32) -> u32 {
    if serial == u32::MAX {
        0
    } else {
        (serial + 1) as u32
    }
}

/// The next free X11 serial once these clients have been pinged.
pub open spec fn serial_after(keys: Seq<PingKey>, serial: u32) -> u32
    decreases keys.len(),
{
    if keys.len() == 0 {
        serial
    } else {
        let s = serial_after(keys.drop_last(), serial);
        match keys.last() {
            PingKey::X11(_) => next_serial(s),
            PingKey::Wayland(_) => s,
        }
    }
}

/// The pings to send to these clients. X11 serials count up.
pub open spec fn ping_orders(keys: Seq<PingKey>, serial: u32) -> Seq<PingOrder>
    decreases keys.len(),
{
    if keys.len() == 0 {
        Seq::empty()
    } else {
        ping_orders(keys.drop_last(), serial).push(
            match keys.last() {
                PingKey::Wayland(client) => PingOrder::Wayland { client },
                PingKey::X11(window) => PingOrder::X11 {
                    window,
                    serial: serial_after(keys.drop_last(), serial),
                },
            },
        )
    }
}

/// `acc` followed by those keys that owe no answer and are not yet in it.
pub open spec fn add_due(
    pings: Map<PingKey, PingState>,
    acc: Seq<PingKey>,
    keys: Seq<PingKey>,
) -> Seq<PingKey>
    decreases keys.len(),
{
    if keys.len() == 0 {
        acc
    } else {
        let before = add_due(pings, acc, keys.drop_last());
        if awaits(pings, keys.last()) || before.contains(keys.last()) {
            before
        } else {
            before.push(keys.last())
        }
    }
}

/// The ping states after one ping was attempted.
pub open spec fn recorded(
    pings: Map<PingKey, PingState>,
    key: PingKey,
    outcome: PingOutcome,
    now: u64,
) -> Map<PingKey, PingState> {
    if key is X11 && outcome is Gone {
        pings
    } else {
        let base = if pings.contains_key(key) {
            pings
        } else {
            pings.insert(key, PingState { outstanding: None, last_pong: now })
        };
        match outcome {
            PingOutcome::Sent(serial) => if base[key].outstanding is None {
                base.insert(
                    key,
                    PingState {
                        outstanding: Some((serial, now)),
                        last_pong: base[key].last_pong,
                    },
                )
            } else {
                base
            },
            _ => base,
        }
    }
}

/// The ping states after a series of pings was attempted.
pub open spec fn recorded_all(
    pings: Map<PingKey, PingState>,
    orders: Seq<PingOrder>,
    outcomes: Seq<PingOutcome>,
    now: u64,
) -> Map<PingKey, PingState>
    decreases orders.len(),
{
    if orders.len() == 0 || outcomes.len() == 0 {
        pings
    } else {
        recorded(
            recorded_all(pings, orders.drop_last(), outcomes.drop_last(), now),
            orders.last().key(),
            outcomes.last(),
            now,
        )
    }
}

/// The clients that turned out to be gone.
pub open spec fn gone_keys(orders: Seq<PingOrder>, outcomes: Seq<PingOutcome>) -> Seq<PingKey>
    decreases orders.len(),
{
    if orders.len() == 0 || outcomes.len() == 0 {
        Seq::empty()
    } else {
        let before = gone_keys(orders.drop_last(), outcomes.drop_last());
        if outcomes.last() is Gone {
            before.push(orders.last().key())
        } else {
            before
        }
    }
}

/// The keys that are not in `gone`, in their order.
pub open spec fn without(keys: Seq<PingKey>, gone: Seq<PingKey>) -> Seq<PingKey>
    decreases keys.len(),
{
    if keys.len() == 0 {
        Seq::empty()
    } else {
        let before = without(keys.drop_last(), gone);
        if gone.contains(keys.last()) {
            before
        } else {
            before.push(keys.last())
        }
    }
}

fn has_key(keys: &Vec<PingKey>, key: PingKey) -> (r: bool)
    ensures
        r == keys@.contains(key),
{
    for i in 0..keys.len()
        invariant
            forall|j: int| 0 <= j < i ==> keys@[j] != key,
    {
        if keys[i] == key {
            assert(keys@[i as int] == key);
            return true;
        }
    }
    false
}

fn remaining(keys: &Vec<PingKey>, gone: &Vec<PingKey>) -> (r: Vec<PingKey>)
    ensures
        r@ == without(keys@, gone@),
{
    let mut out: Vec<PingKey> = Vec::new();
    for i in 0..keys.len()
        invariant
            out@ == without(keys@.take(i as int), gone@),
    {
        if !has_key(gone, keys[i]) {
            out.push(keys[i]);
        }
        assert(keys@.take(i + 1).drop_last() == keys@.take(i as int));
    }
    assert(keys@.take(keys@.len() as int) == keys@);
    out
}

impl<C> DesktopState<C> {
    /// Whether a new ping round starts for a wait.
    pub open spec fn starts_round(w: WaitView, now: u64) -> bool {
        w.round is None && !Self::expired(w, now)
    }

    /// Everyone that a wait wants an answer from.
    pub open spec fn round_targets(self, w: WaitView) -> Seq<PingKey> {
        ping_keys(
            clients(self.windows@, w.watch, w.known_at_start),
            x11_targets(self.windows@, self.x11_ping_support@, w.watch, w.known_at_start),
        )
    }

    /// The clients to ping so that every wait has a round in flight.
    pub open spec fn due(self, waits: Seq<WaitView>, now: u64) -> Seq<PingKey>
        decreases waits.len(),
    {
        if waits.len() == 0 {
            Seq::empty()
        } else {
            let before = self.due(waits.drop_last(), now);
            if Self::starts_round(waits.last(), now) {
                add_due(self.ping_states@, before, self.round_targets(waits.last()))
            } else {
                before
            }
        }
    }

    /// A wait once rounds have been started.
    pub open spec fn begun(self, w: WaitView, gone: Seq<PingKey>, now: u64) -> WaitView {
        if Self::starts_round(w, now) {
            w.with_round(without(self.round_targets(w), gone))
        } else {
            w
        }
    }

    fn expired_now(wait: &Wait, now: u64) -> (r: bool)
        ensures
            r == Self::expired(wait@, now),
    {
        (now as u128) >= wait.deadline
    }

    fn expects(&self, wait: &Wait) -> (r: bool)
        ensures
            r == self.expecting(wait@),
    {
        if !wait.expect_new_window {
            return false;
        }
        for i in 0..self.windows.len()
            invariant
                forall|j: int|
                    0 <= j < i ==> wait.known_at_start@.contains(
                        (#[trigger] self.windows@[j]).id,
                    ),
        {
            if !wait.known_at_start.contains(&self.windows[i].id) {
                assert(crate::comp::has_id(self.windows@, self.windows@[i as int].id));
                assert(crate::comp::ids(self.windows@).contains(self.windows@[i as int].id));
                return false;
            }
        }
        true
    }

    /// Whether any window relevant to a wait is an X11 window that cannot be
    /// pinged. Such waits fall back to a settle grace, since the ping-round
    /// rule would otherwise complete before the program reacts.
    pub fn wait_involves_unpingable_x11(&self, watch: Option<u64>, known_at_start: &HashSet<u64>) -> (r:
        bool)
        ensures
            r == exists|i: int|
                0 <= i < self.windows@.len() && relevant(
                    watch,
                    known_at_start@,
                    (#[trigger] self.windows@[i]).id,
                ) && self.unpingable(self.windows@[i]),
    {
        for i in 0..self.windows.len()
            invariant
                forall|j: int|
                    0 <= j < i ==> !(relevant(
                        watch,
                        known_at_start@,
                        (#[trigger] self.windows@[j]).id,
                    ) && self.unpingable(self.windows@[j])),
        {
            if is_relevant(watch, known_at_start, self.windows[i].id) {
                if let Surface::X11 { window } = self.windows[i].surface {
                    if !self.x11_answers(window) {
                        assert(self.unpingable(self.windows@[i as int]));
                        return true;
                    }
                }
            }
        }
        false
    }

    fn x11_answers(&self, window: u32) -> (r: bool)
        ensures
            r == (self.x11_ping_support@.contains_key(window) && self.x11_ping_support@[window]),
    {
        match self.x11_ping_support.get(&window) {
            Some(s) => *s,
            None => false,
        }
    }

    fn all_answered(&self, round: &Vec<PingKey>) -> (r: bool)
        ensures
            r == round_complete(self.ping_states@, round@),
    {
        for i in 0..round.len()
            invariant
                forall|j: int|
                    0 <= j < i ==> !awaits(self.ping_states@, #[trigger] round@[j]),
        {
            if self.ping_states.awaits(round[i]) {
                return false;
            }
        }
        true
    }

    fn is_settled(wait: &Wait, now: u64) -> (r: bool)
        ensures
            r == wait@.settled(now),
    {
        if wait.require_activity && !wait.has_activity {
            return false;
        }
        match wait.quiet_time {
            None => wait.quiet_rounds >= QUIET_ROUNDS,
            Some(quiet_time) => (elapsed_nanos(wait.last_activity, now) as u128) >= quiet_time,
        }
    }

    /// Looks at one wait: moves it on and tells whether it is over, and if so
    /// whether it timed out.
    fn evaluate_wait(&self, wait: &mut Wait, now: u64) -> (r: Option<bool>)
        ensures
            final(wait)@ == self.advanced(old(wait)@, now),
            r == self.verdict(old(wait)@, now),
    {
        if Self::expired_now(wait, now) {
            return Some(true);
        }
        if self.expects(wait) {
            wait.round = None;
            return None;
        }
        let complete = match &wait.round {
            Some(round) => self.all_answered(round),
            None => false,
        };
        if !complete {
            return None;
        }
        let grace_needed = self.wait_involves_unpingable_x11(wait.watch, &wait.known_at_start);
        wait.quiet_rounds = if wait.round_dirty {
            0
        } else {
            wait.quiet_rounds.saturating_add(1)
        };
        wait.round = None;
        wait.round_dirty = false;
        assert(wait@ == old(wait)@.after_round());
        assert(grace_needed == self.needs_grace(old(wait)@));
        let grace_ok = !grace_needed || elapsed_nanos(wait.last_activity, now) >= X11_SETTLE_GRACE;
        if Self::is_settled(wait, now) && grace_ok {
            Some(false)
        } else {
            None
        }
    }

    /// Looks at every wait and hands out those that are over, the youngest
    /// first.
    pub fn evaluate_waits(&mut self, now: u64) -> (r: Vec<Finished>)
        ensures
            *final(self) == (DesktopState { waits: final(self).waits, ..*old(self) }),
            wait_views(final(self).waits@) == old(self).kept(wait_views(old(self).waits@), now),
            finished_views(r@) == old(self).over(wait_views(old(self).waits@), now),
            old(self).wf() ==> final(self).wf(),
    {
        let ghost all = wait_views(self.waits@);
        let mut pending: Vec<Wait> = Vec::new();
        std::mem::swap(&mut pending, &mut self.waits);
        let mut finished: Vec<Finished> = Vec::new();
        let mut kept_rev: Vec<Wait> = Vec::new();
        proof {
            assert(all.take(all.len() as int) == all);
            assert(finished_views(finished@) =~= Seq::<(WaitView, bool)>::empty());
            assert(wait_views(kept_rev@).reverse() =~= Seq::<WaitView>::empty());
        }
        while pending.len() > 0
            invariant
                *self == (DesktopState { waits: self.waits, ..*old(self) }),
                self.waits@.len() == 0,
                all == wait_views(old(self).waits@),
                pending@.len() <= all.len(),
                wait_views(pending@) == all.take(pending@.len() as int),
                finished_views(finished@) + old(self).over(
                    all.take(pending@.len() as int),
                    now,
                ) == old(self).over(all, now),
                old(self).kept(all.take(pending@.len() as int), now) + wait_views(
                    kept_rev@,
                ).reverse() == old(self).kept(all, now),
            decreases pending@.len(),
        {
            let ghost n = pending@.len() as int;
            let ghost views = wait_views(pending@);
            let ghost before_finished = finished@;
            let ghost before_kept = kept_rev@;
            let mut wait = pending.pop().unwrap();
            let ghost w = wait@;
            proof {
                assert(w == views[n - 1]);
                assert(w == all[n - 1]);
                assert(all.take(n).drop_last() == all.take(n - 1));
                assert(wait_views(pending@) =~= all.take(n - 1)) by {
                    assert forall|j: int| 0 <= j < n - 1 implies wait_views(pending@)[j] == all[j] by {
                        assert(views[j] == all.take(n)[j]);
                    }
                }
            }
            match self.evaluate_wait(&mut wait, now) {
                Some(timed_out) => {
                    finished.push(Finished { wait, timed_out });
                    proof {
                        assert(finished_views(finished@) =~= finished_views(before_finished).push(
                            (wait@, timed_out),
                        ));
                        assert(old(self).over(all.take(n), now) == seq![(wait@, timed_out)] + old(
                            self,
                        ).over(all.take(n - 1), now));
                        assert(finished_views(finished@) + old(self).over(all.take(n - 1), now)
                            =~= finished_views(before_finished) + old(self).over(
                            all.take(n),
                            now,
                        ));
                    }
                },
                None => {
                    kept_rev.push(wait);
                    proof {
                        assert(wait_views(kept_rev@) =~= wait_views(before_kept).push(wait@));
                        assert(old(self).kept(all.take(n), now) == old(self).kept(
                            all.take(n - 1),
                            now,
                        ).push(wait@));
                        assert(old(self).kept(all.take(n - 1), now) + wait_views(
                            kept_rev@,
                        ).reverse() =~= old(self).kept(all.take(n), now) + wait_views(
                            before_kept,
                        ).reverse());
                    }
                },
            }
        }
        proof {
            assert(all.take(0) =~= Seq::<WaitView>::empty());
            assert(finished_views(finished@) =~= old(self).over(all, now));
            assert(wait_views(kept_rev@).reverse() =~= old(self).kept(all, now));
            assert(wait_views(self.waits@) + wait_views(kept_rev@).reverse() =~= old(self).kept(
                all,
                now,
            ));
        }
        while kept_rev.len() > 0
            invariant
                *self == (DesktopState { waits: self.waits, ..*old(self) }),
                wait_views(self.waits@) + wait_views(kept_rev@).reverse() == old(self).kept(
                    all,
                    now,
                ),
            decreases kept_rev@.len(),
        {
            let ghost before = wait_views(kept_rev@);
            let ghost done = wait_views(self.waits@);
            let wait = kept_rev.pop().unwrap();
            self.waits.push(wait);
            proof {
                assert(wait_views(self.waits@) =~= done.push(wait@));
                assert(wait_views(kept_rev@) =~= before.drop_last());
                assert(before.last() == wait@);
                assert(done.push(wait@) + before.drop_last().reverse() =~= done
                    + before.reverse());
            }
        }
        assert(wait_views(self.waits@) =~= old(self).kept(all, now));
        proof {
            old(self).lemma_kept_known(all, self.next_window_id, now);
        }
        finished
    }
}

impl<C> DesktopState<C> {
    /// A Wayland xdg client answered a ping. The xdg pong carries no serial
    /// that is tracked, so any pong clears the outstanding ping.
    pub fn note_pong(&mut self, key: u64, now: u64) -> (r: Vec<Finished>)
        ensures
            *final(self) == (DesktopState {
                ping_states: final(self).ping_states,
                waits: final(self).waits,
                ..*old(self)
            }),
            final(self).ping_states@ == old(self).ping_states@.insert(
                PingKey::Wayland(key),
                PingState { outstanding: None, last_pong: now },
            ),
            wait_views(final(self).waits@) == final(self).kept(wait_views(old(self).waits@), now),
            finished_views(r@) == final(self).over(wait_views(old(self).waits@), now),
            old(self).wf() ==> final(self).wf(),
    {
        self.ping_states.set(
            PingKey::Wayland(key),
            PingState { outstanding: None, last_pong: now },
        );
        let ghost mid = *self;
        let r = self.evaluate_waits(now);
        proof {
            lemma_same_scene(mid, *self, wait_views(old(self).waits@), now);
        }
        r
    }

    /// An X11 window answered a `_NET_WM_PING`. Only clears the ping if the
    /// serial matches, so stale replies don't end a round early.
    pub fn note_x11_pong(&mut self, window: u32, serial: u32, now: u64) -> (r: Vec<Finished>)
        ensures
            *final(self) == (DesktopState {
                ping_states: final(self).ping_states,
                waits: final(self).waits,
                ..*old(self)
            }),
            final(self).ping_states@ == x11_answered(
                old(self).ping_states@,
                window,
                serial,
                now,
            ),
            wait_views(final(self).waits@) == final(self).kept(wait_views(old(self).waits@), now),
            finished_views(r@) == final(self).over(wait_views(old(self).waits@), now),
            old(self).wf() ==> final(self).wf(),
    {
        let key = PingKey::X11(window);
        if let Some(p) = self.ping_states.get(key) {
            if let Some((expected, _)) = p.outstanding {
                if expected == serial {
                    self.ping_states.set(key, PingState { outstanding: None, last_pong: now });
                }
            }
        }
        let ghost mid = *self;
        let r = self.evaluate_waits(now);
        proof {
            lemma_same_scene(mid, *self, wait_views(old(self).waits@), now);
        }
        r
    }

    /// Whether a client left a ping unanswered for too long.
    pub open spec fn frozen(self, key: PingKey, now: u64) -> bool {
        &&& awaits(self.ping_states@, key)
        &&& elapsed(self.ping_states@[key].outstanding->Some_0.1, now) > FROZEN_AFTER
    }

    /// Whether a client left a ping unanswered for more than 10 seconds.
    pub fn client_frozen(&self, key: PingKey, now: u64) -> (r: bool)
        ensures
            r == self.frozen(key, now),
    {
        match self.ping_states.get(key) {
            Some(p) => match p.outstanding {
                Some((_, sent)) => elapsed_nanos(sent, now) > FROZEN_AFTER,
                None => false,
            },
            None => false,
        }
    }

    /// Shell clients relevant for a wait: the watched window's client plus
    /// clients of windows created after the wait started, or all clients if
    /// nothing specific is watched.
    pub fn wait_targets(&self, watch: Option<u64>, known_at_start: &HashSet<u64>) -> (r: Vec<u64>)
        ensures
            r@ == clients(self.windows@, watch, known_at_start@),
    {
        let mut out: Vec<u64> = Vec::new();
        let mut seen: HashSet<u64> = HashSet::new();
        for i in 0..self.windows.len()
            invariant
                out@ == clients(self.windows@.take(i as int), watch, known_at_start@),
                forall|k: u64| seen@.contains(k) == out@.contains(k),
        {
            let ghost before = out@;
            proof {
                assert(self.windows@.take(i + 1).drop_last() == self.windows@.take(i as int));
            }
            if is_relevant(watch, known_at_start, self.windows[i].id) {
                if let Surface::Wayland { client: Some(key) } = self.windows[i].surface {
                    if seen.insert(key) {
                        out.push(key);
                        proof {
                            assert forall|k: u64| seen@.contains(k) == out@.contains(k) by {
                                if before.contains(k) {
                                    let j = choose|j: int|
                                        0 <= j < before.len() && before[j] == k;
                                    assert(out@[j] == k);
                                }
                                if k == key {
                                    assert(out@[before.len() as int] == k);
                                }
                            }
                        }
                    }
                }
            }
        }
        assert(self.windows@.take(self.windows@.len() as int) == self.windows@);
        out
    }

    /// X11 windows relevant for a wait that advertise `_NET_WM_PING`.
    pub fn wait_x11_targets(&self, watch: Option<u64>, known_at_start: &HashSet<u64>) -> (r: Vec<
        u32,
    >)
        ensures
            r@ == x11_targets(
                self.windows@,
                self.x11_ping_support@,
                watch,
                known_at_start@,
            ),
    {
        let mut out: Vec<u32> = Vec::new();
        for i in 0..self.windows.len()
            invariant
                out@ == x11_targets(
                    self.windows@.take(i as int),
                    self.x11_ping_support@,
                    watch,
                    known_at_start@,
                ),
        {
            proof {
                assert(self.windows@.take(i + 1).drop_last() == self.windows@.take(i as int));
            }
            if is_relevant(watch, known_at_start, self.windows[i].id) {
                if let Surface::X11 { window } = self.windows[i].surface {
                    if self.x11_answers(window) {
                        out.push(window);
                    }
                }
            }
        }
        assert(self.windows@.take(self.windows@.len() as int) == self.windows@);
        out
    }

    fn keys_of(&self, watch: Option<u64>, known_at_start: &HashSet<u64>) -> (r: Vec<PingKey>)
        ensures
            r@ == ping_keys(
                clients(self.windows@, watch, known_at_start@),
                x11_targets(self.windows@, self.x11_ping_support@, watch, known_at_start@),
            ),
    {
        let wayland = self.wait_targets(watch, known_at_start);
        let x11 = self.wait_x11_targets(watch, known_at_start);
        let mut out: Vec<PingKey> = Vec::new();
        for i in 0..wayland.len()
            invariant
                out@.len() == i,
                forall|j: int| 0 <= j < i ==> #[trigger] out@[j] == PingKey::Wayland(wayland@[j]),
        {
            out.push(PingKey::Wayland(wayland[i]));
        }
        for i in 0..x11.len()
            invariant
                out@.len() == wayland@.len() + i,
                forall|j: int|
                    0 <= j < wayland@.len() ==> #[trigger] out@[j] == PingKey::Wayland(wayland@[j]),
                forall|j: int|
                    wayland@.len() <= j < out@.len() ==> #[trigger] out@[j] == PingKey::X11(
                        x11@[j - wayland@.len()],
                    ),
        {
            out.push(PingKey::X11(x11[i]));
        }
        assert(out@ =~= ping_keys(wayland@, x11@));
        out
    }

    fn collect_due(&self, due: &mut Vec<PingKey>, keys: &Vec<PingKey>)
        ensures
            final(due)@ == add_due(self.ping_states@, old(due)@, keys@),
    {
        for i in 0..keys.len()
            invariant
                due@ == add_due(self.ping_states@, old(due)@, keys@.take(i as int)),
        {
            if !self.ping_states.awaits(keys[i]) && !has_key(due, keys[i]) {
                due.push(keys[i]);
            }
            assert(keys@.take(i + 1).drop_last() == keys@.take(i as int));
        }
        assert(keys@.take(keys@.len() as int) == keys@);
    }

    /// Turns clients into pings to send, drawing X11 serials.
    fn order_pings(&mut self, keys: &Vec<PingKey>) -> (r: Vec<PingOrder>)
        ensures
            *final(self) == (DesktopState {
                next_x11_serial: serial_after(keys@, old(self).next_x11_serial),
                ..*old(self)
            }),
            r@ == ping_orders(keys@, old(self).next_x11_serial),
    {
        let mut out: Vec<PingOrder> = Vec::new();
        for i in 0..keys.len()
            invariant
                *self == (DesktopState {
                    next_x11_serial: serial_after(keys@.take(i as int), old(self).next_x11_serial),
                    ..*old(self)
                }),
                out@ == ping_orders(keys@.take(i as int), old(self).next_x11_serial),
        {
            match keys[i] {
                PingKey::Wayland(client) => out.push(PingOrder::Wayland { client }),
                PingKey::X11(window) => {
                    let serial = self.next_x11_serial;
                    self.next_x11_serial = if serial == u32::MAX {
                        0
                    } else {
                        serial + 1
                    };
                    out.push(PingOrder::X11 { window, serial });
                },
            }
            assert(keys@.take(i + 1).drop_last() == keys@.take(i as int));
        }
        assert(keys@.take(keys@.len() as int) == keys@);
        out
    }

    /// The pings to send before the next [`Self::tracker_tick`], so that
    /// every wait without a ping round gets one. No client is pinged again
    /// while it owes an answer.
    pub fn pings_due(&mut self, now: u64) -> (r: Vec<PingOrder>)
        ensures
            *final(self) == (DesktopState {
                next_x11_serial: serial_after(
                    old(self).due(wait_views(old(self).waits@), now),
                    old(self).next_x11_serial,
                ),
                ..*old(self)
            }),
            r@ == ping_orders(
                old(self).due(wait_views(old(self).waits@), now),
                old(self).next_x11_serial,
            ),
            old(self).wf() ==> final(self).wf(),
    {
        let ghost all = wait_views(self.waits@);
        let mut due: Vec<PingKey> = Vec::new();
        for i in 0..self.waits.len()
            invariant
                *self == *old(self),
                all == wait_views(self.waits@),
                due@ == self.due(all.take(i as int), now),
        {
            let wait = &self.waits[i];
            proof {
                assert(all.take(i + 1).drop_last() == all.take(i as int));
                assert(all.take(i + 1).last() == wait@);
            }
            if wait.round.is_none() && !Self::expired_now(wait, now) {
                let keys = self.keys_of(wait.watch, &wait.known_at_start);
                self.collect_due(&mut due, &keys);
            }
        }
        assert(all.take(all.len() as int) == all);
        self.order_pings(&due)
    }

    fn record_ping(&mut self, key: PingKey, outcome: PingOutcome, now: u64)
        ensures
            *final(self) == (DesktopState {
                ping_states: final(self).ping_states,
                ..*old(self)
            }),
            final(self).ping_states@ == recorded(old(self).ping_states@, key, outcome, now),
    {
        if let (PingKey::X11(_), PingOutcome::Gone) = (key, outcome) {
            return;
        }
        let known = self.ping_states.get(key);
        let state = match known {
            Some(p) => p,
            None => {
                let p = PingState { outstanding: None, last_pong: now };
                self.ping_states.set(key, p);
                p
            },
        };
        if state.outstanding.is_none() {
            if let PingOutcome::Sent(serial) = outcome {
                self.ping_states.set(
                    key,
                    PingState { outstanding: Some((serial, now)), last_pong: state.last_pong },
                );
            }
        }
    }

    /// Takes note of what became of a series of pings.
    pub fn record_pings(&mut self, orders: &Vec<PingOrder>, outcomes: &Vec<PingOutcome>, now: u64)
        requires
            orders@.len() == outcomes@.len(),
        ensures
            *final(self) == (DesktopState {
                ping_states: final(self).ping_states,
                ..*old(self)
            }),
            final(self).ping_states@ == recorded_all(
                old(self).ping_states@,
                orders@,
                outcomes@,
                now,
            ),
            old(self).wf() ==> final(self).wf(),
    {
        for i in 0..orders.len()
            invariant
                orders@.len() == outcomes@.len(),
                *self == (DesktopState { ping_states: self.ping_states, ..*old(self) }),
                self.ping_states@ == recorded_all(
                    old(self).ping_states@,
                    orders@.take(i as int),
                    outcomes@.take(i as int),
                    now,
                ),
        {
            self.record_ping(orders[i].ping_key(), outcomes[i], now);
            proof {
                assert(orders@.take(i + 1).drop_last() == orders@.take(i as int));
                assert(outcomes@.take(i + 1).drop_last() == outcomes@.take(i as int));
            }
        }
        proof {
            assert(orders@.take(orders@.len() as int) == orders@);
            assert(outcomes@.take(outcomes@.len() as int) == outcomes@);
        }
    }

    /// Periodic driver: takes note of the pings that were sent, starts a ping
    /// round for every wait that has none, and hands out the waits that are
    /// over. `orders` are the pings of [`Self::pings_due`].
    pub fn tracker_tick(
        &mut self,
        orders: &Vec<PingOrder>,
        outcomes: &Vec<PingOutcome>,
        now: u64,
    ) -> (r: Vec<Finished>)
        requires
            orders@.len() == outcomes@.len(),
        ensures
            *final(self) == (DesktopState {
                ping_states: final(self).ping_states,
                waits: final(self).waits,
                ..*old(self)
            }),
            final(self).ping_states@ == recorded_all(
                old(self).ping_states@,
                orders@,
                outcomes@,
                now,
            ),
            wait_views(final(self).waits@) == final(self).kept(
                old(self).all_begun(wait_views(old(self).waits@), gone_keys(orders@, outcomes@), now),
                now,
            ),
            finished_views(r@) == final(self).over(
                old(self).all_begun(wait_views(old(self).waits@), gone_keys(orders@, outcomes@), now),
                now,
            ),
            old(self).wf() ==> final(self).wf(),
    {
        let mut gone: Vec<PingKey> = Vec::new();
        for i in 0..orders.len()
            invariant
                orders@.len() == outcomes@.len(),
                gone@ == gone_keys(orders@.take(i as int), outcomes@.take(i as int)),
        {
            if let PingOutcome::Gone = outcomes[i] {
                gone.push(orders[i].ping_key());
            }
            proof {
                assert(orders@.take(i + 1).drop_last() == orders@.take(i as int));
                assert(outcomes@.take(i + 1).drop_last() == outcomes@.take(i as int));
            }
        }
        proof {
            assert(orders@.take(orders@.len() as int) == orders@);
            assert(outcomes@.take(outcomes@.len() as int) == outcomes@);
        }
        self.record_pings(orders, outcomes, now);
        let ghost recorded_state = *self;
        let n = self.waits.len();
        for i in 0..n
            invariant
                *self == (DesktopState { waits: self.waits, ..recorded_state }),
                recorded_state.windows == old(self).windows,
                recorded_state.x11_ping_support == old(self).x11_ping_support,
                recorded_state.waits == old(self).waits,
                n == self.waits@.len(),
                n == old(self).waits@.len(),
                gone@ == gone_keys(orders@, outcomes@),
                forall|j: int|
                    0 <= j < i ==> (#[trigger] self.waits@[j])@ == old(self).begun(
                        old(self).waits@[j]@,
                        gone@,
                        now,
                    ),
                forall|j: int| i <= j < n ==> #[trigger] self.waits@[j] == old(self).waits@[j],
        {
            let wait = &self.waits[i];
            if wait.round.is_none() && !Self::expired_now(wait, now) {
                let keys = self.keys_of(wait.watch, &wait.known_at_start);
                let left = remaining(&keys, &gone);
                let wait = &mut self.waits[i];
                wait.round = Some(left);
                if wait.round_dirty {
                    wait.quiet_rounds = 0;
                }
                wait.round_dirty = false;
            }
        }
        let ghost mid = *self;
        proof {
            assert(wait_views(self.waits@) =~= old(self).all_begun(
                wait_views(old(self).waits@),
                gone@,
                now,
            ));
        }
        proof {
            lemma_known_below(
                wait_views(old(self).waits@),
                wait_views(mid.waits@),
                self.next_window_id,
            );
        }
        let r = self.evaluate_waits(now);
        proof {
            lemma_same_scene(mid, *self, wait_views(mid.waits@), now);
        }
        r
    }

    /// The waits once rounds have been started.
    pub open spec fn all_begun(
        self,
        waits: Seq<WaitView>,
        gone: Seq<PingKey>,
        now: u64,
    ) -> Seq<WaitView> {
        waits.map_values(|w: WaitView| self.begun(w, gone, now))
    }

    /// Pings for all clients that owe no answer, so that frozen windows are
    /// detected even while no transition is being tracked.
    pub fn heartbeat(&mut self) -> (r: Vec<PingOrder>)
        ensures
            *final(self) == (DesktopState {
                next_x11_serial: serial_after(
                    old(self).heartbeat_keys(),
                    old(self).next_x11_serial,
                ),
                ..*old(self)
            }),
            r@ == ping_orders(old(self).heartbeat_keys(), old(self).next_x11_serial),
            old(self).wf() ==> final(self).wf(),
    {
        let none: HashSet<u64> = HashSet::new();
        let keys = self.keys_of(None, &none);
        let mut due: Vec<PingKey> = Vec::new();
        self.collect_due(&mut due, &keys);
        assert(none@ =~= Set::<u64>::empty());
        self.order_pings(&due)
    }

    /// All clients that can be pinged.
    pub open spec fn heartbeat_targets(self) -> Seq<PingKey> {
        ping_keys(
            clients(self.windows@, None, Set::empty()),
            x11_targets(self.windows@, self.x11_ping_support@, None, Set::empty()),
        )
    }

    /// The clients that the heartbeat pings.
    pub open spec fn heartbeat_keys(self) -> Seq<PingKey> {
        add_due(self.ping_states@, Seq::empty(), self.heartbeat_targets())
    }

    /// The X11 windows of which it is not yet known whether they take part in
    /// pings.
    pub open spec fn x11_unasked(windows: Seq<Window>, support: Map<u32, bool>) -> Seq<u32>
        decreases windows.len(),
    {
        if windows.len() == 0 {
            Seq::empty()
        } else {
            let before = Self::x11_unasked(windows.drop_last(), support);
            match windows.last().surface {
                Surface::X11 { window } => if support.contains_key(window) {
                    before
                } else {
                    before.push(window)
                },
                _ => before,
            }
        }
    }

    /// The X11 windows to ask whether they take part in pings.
    pub fn x11_support_queries(&self) -> (r: Vec<u32>)
        ensures
            r@ == Self::x11_unasked(self.windows@, self.x11_ping_support@),
    {
        let mut out: Vec<u32> = Vec::new();
        for i in 0..self.windows.len()
            invariant
                out@ == Self::x11_unasked(self.windows@.take(i as int), self.x11_ping_support@),
        {
            if let Surface::X11 { window } = self.windows[i].surface {
                if !self.x11_ping_support.contains_key(&window) {
                    out.push(window);
                }
            }
            assert(self.windows@.take(i + 1).drop_last() == self.windows@.take(i as int));
        }
        assert(self.windows@.take(self.windows@.len() as int) == self.windows@);
        out
    }

    /// Remembers whether an X11 window takes part in pings. The first answer
    /// counts.
    pub fn note_x11_support(&mut self, window: u32, supported: bool)
        ensures
            *final(self) == (DesktopState {
                x11_ping_support: final(self).x11_ping_support,
                ..*old(self)
            }),
            final(self).x11_ping_support@ == if old(self).x11_ping_support@.contains_key(window) {
                old(self).x11_ping_support@
            } else {
                old(self).x11_ping_support@.insert(window, supported)
            },
            old(self).wf() ==> final(self).wf(),
    {
        if !self.x11_ping_support.contains_key(&window) {
            self.x11_ping_support.insert(window, supported);
        }
    }
}

/// The ping states after an X11 window answered under a serial.
pub open spec fn x11_answered(
    pings: Map<PingKey, PingState>,
    window: u32,
    serial: u32,
    now: u64,
) -> Map<PingKey, PingState> {
    let key = PingKey::X11(window);
    if awaits(pings, key) && pings[key].outstanding->Some_0.0 == serial {
        pings.insert(key, PingState { outstanding: None, last_pong: now })
    } else {
        pings
    }
}

/// What becomes of waits depends on the windows and the pings alone.
proof fn lemma_same_scene<C>(
    a: DesktopState<C>,
    b: DesktopState<C>,
    waits: Seq<WaitView>,
    now: u64,
)
    requires
        b == (DesktopState { waits: b.waits, ..a }),
    ensures
        a.kept(waits, now) == b.kept(waits, now),
        a.over(waits, now) == b.over(waits, now),
    decreases waits.len(),
{
    if waits.len() > 0 {
        lemma_same_scene(a, b, waits.drop_last(), now);
    }
}

} // verus!
