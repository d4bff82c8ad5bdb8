//! What transition tracking promises as a whole.

use vstd::prelude::*;

use crate::comp::{DesktopState, Surface};
use crate::tracker::{PingKey, PingOrder, PingOutcome, PingState, WaitView, FROZEN_AFTER, X11_SETTLE_GRACE};

verus! {

/// Something that happens while a wait is pending.
pub enum Moment<C> {
    /// A window committed something.
    Update { id: u64, now: u64 },
    /// A window closed.
    Closing { id: u64, now: u64 },
    /// Ping rounds are started.
    Begin { state: DesktopState<C>, gone: Seq<PingKey>, now: u64 },
    /// The waits are looked at.
    Look { state: DesktopState<C>, now: u64 },
}

impl<C> Moment<C> {
    pub open spec fn time(self) -> u64 {
        match self {
            Moment::Update { now, .. } => now,
            Moment::Closing { now, .. } => now,
            Moment::Begin { now, .. } => now,
            Moment::Look { now, .. } => now,
        }
    }
}

impl WaitView {
    /// The wait after one moment.
    pub open spec fn after<C>(self, m: Moment<C>) -> WaitView {
        match m {
            Moment::Update { id, now } => self.after_activity(id, now),
            Moment::Closing { id, now } => self.after_close(id, now),
            Moment::Begin { state, gone, now } => state.begun(self, gone, now),
            Moment::Look { state, now } => state.advanced(self, now),
        }
    }

    /// The wait after the first `k` moments.
    pub open spec fn after_all<C>(self, h: Seq<Moment<C>>, k: int) -> WaitView
        decreases k,
    {
        if k <= 0 {
            self
        } else {
            self.after_all(h, k - 1).after(h[k - 1])
        }
    }

    /// Whether an update that the wait cares about happens at moment `k`.
    pub open spec fn disturbed_at<C>(self, h: Seq<Moment<C>>, k: int) -> bool {
        match h[k] {
            Moment::Update { id, .. } => self.cares(id),
            Moment::Closing { id, .. } => self.cares(id),
            _ => false,
        }
    }

    /// Whether a ping round of the wait starts at moment `k`.
    pub open spec fn round_starts_at<C>(self, h: Seq<Moment<C>>, k: int) -> bool {
        match h[k] {
            Moment::Begin { now, .. } => DesktopState::<C>::starts_round(self.after_all(h, k), now),
            _ => false,
        }
    }

    /// Whether a ping round of the wait has been answered by everyone at
    /// moment `k`.
    pub open spec fn round_ends_at<C>(self, h: Seq<Moment<C>>, k: int) -> bool {
        match h[k] {
            Moment::Look { state, now } => state.round_ends(self.after_all(h, k), now),
            _ => false,
        }
    }

    /// Whether the wait is looked at in moment `k` and still waits for the
    /// first window of a launched program.
    pub open spec fn expects_at<C>(self, h: Seq<Moment<C>>, k: int) -> bool {
        match h[k] {
            Moment::Look { state, .. } => state.expecting(self.after_all(h, k)),
            _ => false,
        }
    }

    /// Whether the time from moment `from` to moment `to` is one ping round
    /// without an update.
    pub open spec fn quiet_round<C>(self, h: Seq<Moment<C>>, from: int, to: int) -> bool {
        &&& 0 <= from < to
        &&& self.round_starts_at(h, from)
        &&& self.round_ends_at(h, to)
        &&& forall|k: int| from < k < to ==> !self.disturbed_at(h, k) && !self.round_ends_at(h, k)
    }
}

/// A wait that has seen nothing yet.
pub open spec fn untouched(w: WaitView) -> bool {
    &&& w.quiet_rounds == 0
    &&& w.round is None
    &&& !w.has_activity
}

/// The round in flight has been quiet since it started at moment `r`.
spec fn clean_since<C>(w: WaitView, h: Seq<Moment<C>>, r: int, n: int) -> bool {
    &&& 0 <= r < n
    &&& w.round_starts_at(h, r)
    &&& forall|k: int| r < k < n ==> !w.disturbed_at(h, k) && !w.round_ends_at(h, k)
}

/// The latest answered round was the quiet one from `r` to `a`, and nothing
/// happened since it ended.
spec fn last_was_quiet<C>(w: WaitView, h: Seq<Moment<C>>, r: int, a: int, n: int) -> bool {
    &&& a < n
    &&& w.quiet_round(h, r, a)
    &&& forall|k: int| a < k < n ==> !w.round_ends_at(h, k) && !w.disturbed_at(h, k)
}

proof fn lemma_constant<C>(w: WaitView, h: Seq<Moment<C>>, n: int)
    requires
        0 <= n <= h.len(),
    ensures
        w.after_all(h, n).watch == w.watch,
        w.after_all(h, n).known_at_start == w.known_at_start,
        w.after_all(h, n).quiet_time == w.quiet_time,
        w.after_all(h, n).require_activity == w.require_activity,
    decreases n,
{
    if n > 0 {
        lemma_constant(w, h, n - 1);
    }
}

/// What the bookkeeping of a wait says about the rounds so far.
proof fn lemma_rounds<C>(w: WaitView, h: Seq<Moment<C>>, n: int) -> (r: (int, int, int))
    requires
        0 <= n <= h.len(),
        untouched(w),
    ensures
        w.after_all(h, n).round is Some && !w.after_all(h, n).round_dirty ==> clean_since(
            w,
            h,
            r.0,
            n,
        ),
        w.after_all(h, n).quiet_rounds >= 1 && !w.after_all(h, n).round_dirty ==> last_was_quiet(
            w,
            h,
            r.1,
            r.2,
            n,
        ),
    decreases n,
{
    if n == 0 {
        (0, 0, 0)
    } else {
        let (clean, start, end) = lemma_rounds(w, h, n - 1);
        lemma_constant(w, h, n - 1);
        let before = w.after_all(h, n - 1);
        let k = n - 1;
        if w.round_starts_at(h, k) {
            (k, start, end)
        } else if w.round_ends_at(h, k) {
            if before.round_dirty {
                (0, start, end)
            } else {
                (0, clean, k)
            }
        } else {
            (clean, start, end)
        }
    }
}

/// Law: a transition that is not timed out and has no settling time of its own
/// is complete only after two consecutive ping rounds, the second of which has
/// just been answered, and no update that the wait cares about came from the
/// start of the first to the end of the second.
pub proof fn law_complete_only_after_two_quiet_rounds<C>(
    w: WaitView,
    h: Seq<Moment<C>>,
    state: DesktopState<C>,
    now: u64,
) -> (r: (int, int, int))
    requires
        untouched(w),
        w.quiet_time is None,
        state.verdict(w.after_all(h, h.len() as int), now) == Some(false),
    ensures
        ({
            let all = h.push(Moment::Look { state, now });
            &&& r.1 < r.2
            &&& w.quiet_round(all, r.0, r.1)
            &&& w.quiet_round(all, r.2, h.len() as int)
            &&& forall|k: int| r.1 < k < h.len() ==> !w.round_ends_at(all, k)
            &&& forall|k: int| r.0 <= k <= h.len() ==> !w.disturbed_at(all, k)
        }),
{
    let n = h.len() as int;
    let all = h.push(Moment::Look { state, now });
    lemma_constant(w, h, n);
    lemma_prefix(w, h, all, n);
    let (second, start, end) = lemma_rounds(w, all, n);
    let last = w.after_all(h, n);
    assert(last.after_round().quiet_rounds >= 2);
    assert(w.round_ends_at(all, n));
    assert(clean_since(w, all, second, n));
    assert(w.round_ends_at(all, end));
    assert(w.round_starts_at(all, second));
    (start, end, second)
}

proof fn lemma_prefix<C>(w: WaitView, h: Seq<Moment<C>>, all: Seq<Moment<C>>, n: int)
    requires
        0 <= n <= h.len() <= all.len(),
        forall|k: int| 0 <= k < h.len() ==> h[k] == all[k],
    ensures
        w.after_all(h, n) == w.after_all(all, n),
    decreases n,
{
    if n > 0 {
        lemma_prefix(w, h, all, n - 1);
    }
}

proof fn lemma_round_stays_clean<C>(w: WaitView, h: Seq<Moment<C>>, r: int, k: int)
    requires
        0 <= r < k <= h.len(),
        w.round_starts_at(h, r),
        forall|j: int| r < j < k ==> !w.disturbed_at(h, j) && !w.round_ends_at(h, j),
        forall|j: int| r < j < k ==> !w.expects_at(h, j),
    ensures
        w.after_all(h, k).round is Some,
        !w.after_all(h, k).round_dirty,
    decreases k,
{
    lemma_constant(w, h, k - 1);
    if r < k - 1 {
        lemma_round_stays_clean(w, h, r, k - 1);
        assert(!w.disturbed_at(h, k - 1) && !w.round_ends_at(h, k - 1));
        assert(!w.expects_at(h, k - 1));
    }
}

proof fn lemma_count_is_kept<C>(w: WaitView, h: Seq<Moment<C>>, a: int, k: int)
    requires
        0 <= a < k <= h.len(),
        !w.after_all(h, a + 1).round_dirty,
        forall|j: int| a < j < k ==> !w.round_ends_at(h, j) && !w.disturbed_at(h, j),
    ensures
        w.after_all(h, k).quiet_rounds == w.after_all(h, a + 1).quiet_rounds,
        !w.after_all(h, k).round_dirty,
    decreases k,
{
    if a + 1 < k {
        lemma_count_is_kept(w, h, a, k - 1);
        lemma_constant(w, h, k - 1);
        assert(!w.round_ends_at(h, k - 1) && !w.disturbed_at(h, k - 1));
    }
}

/// Law: two consecutive ping rounds without an update from the start of the
/// first to the end of the second complete a transition that has no settling
/// time of its own, once it has seen the update that it may require. A launch
/// has its window by then, and a wait that involves a window which cannot be
/// pinged has its grace behind it.
pub proof fn law_two_quiet_rounds_complete_a_transition<C>(
    w: WaitView,
    h: Seq<Moment<C>>,
    state: DesktopState<C>,
    now: u64,
    first: int,
    answered: int,
    second: int,
)
    requires
        w.quiet_time is None,
        forall|k: int|
            first < k <= h.len() ==> !w.expects_at(h.push(Moment::Look { state, now }), k),
        state.needs_grace(w) ==> crate::tracker::elapsed(
            w.after_all(h, h.len() as int).last_activity,
            now,
        ) >= X11_SETTLE_GRACE,
        ({
            let all = h.push(Moment::Look { state, now });
            &&& answered < second
            &&& w.quiet_round(all, first, answered)
            &&& w.quiet_round(all, second, h.len() as int)
            &&& forall|k: int|
                answered < k < h.len() ==> !w.round_ends_at(all, k) && !w.disturbed_at(all, k)
        }),
        w.require_activity ==> w.after_all(h, h.len() as int).has_activity,
    ensures
        state.verdict(w.after_all(h, h.len() as int), now) == Some(false),
{
    let n = h.len() as int;
    let all = h.push(Moment::Look { state, now });
    lemma_prefix(w, h, all, n);
    lemma_constant(w, all, n);
    lemma_round_stays_clean(w, all, first, answered);
    lemma_round_stays_clean(w, all, second, n);
    lemma_same_grace(state, w, w.after_all(h, n));
    lemma_count_is_kept(w, all, answered, n);
    assert(w.round_ends_at(all, answered));
    assert(w.round_ends_at(all, n));
    assert(w.after_all(all, answered + 1).quiet_rounds >= 1);
}

proof fn lemma_same_grace<C>(state: DesktopState<C>, a: WaitView, b: WaitView)
    requires
        a.watch == b.watch,
        a.known_at_start == b.known_at_start,
    ensures
        state.needs_grace(a) == state.needs_grace(b),
{
    assert forall|i: int| 0 <= i < state.windows@.len() implies a.cares(
        (#[trigger] state.windows@[i]).id,
    ) == b.cares(state.windows@[i].id) by {}
}

/// Law: a wait starts without updates, rounds or quiet rounds.
pub proof fn law_waits_start_untouched(
    params: crate::ipc::WaitParams,
    known_at_start: Set<u64>,
    snapshot: crate::ipc::SnapshotRequest,
    reply: u64,
    warnings: Seq<Seq<char>>,
    now: u64,
)
    ensures
        untouched(
            crate::tracker::fresh_wait(params, known_at_start, snapshot, reply, warnings, now),
        ),
{
}

proof fn lemma_has_activity<C>(w: WaitView, h: Seq<Moment<C>>, n: int)
    requires
        0 <= n <= h.len(),
        !w.has_activity,
    ensures
        w.after_all(h, n).has_activity <==> exists|k: int| 0 <= k < n && w.disturbed_at(h, k),
    decreases n,
{
    if n > 0 {
        lemma_has_activity(w, h, n - 1);
        lemma_constant(w, h, n - 1);
        if w.disturbed_at(h, n - 1) {
            assert(w.after_all(h, n).has_activity);
        } else {
            assert(w.after_all(h, n).has_activity == w.after_all(h, n - 1).has_activity);
        }
    }
}

/// Law: a wait that requires an update and is not timed out ends only after at
/// least one, with or without a settling time of its own.
pub proof fn law_required_update_is_waited_for<C>(
    w: WaitView,
    h: Seq<Moment<C>>,
    state: DesktopState<C>,
    now: u64,
)
    requires
        untouched(w),
        w.require_activity,
        state.verdict(w.after_all(h, h.len() as int), now) == Some(false),
    ensures
        exists|k: int| 0 <= k < h.len() && w.disturbed_at(h, k),
{
    lemma_has_activity(w, h, h.len() as int);
    lemma_constant(w, h, h.len() as int);
}

/// The time of the latest update.
proof fn lemma_last_activity<C>(w: WaitView, h: Seq<Moment<C>>, n: int)
    requires
        0 <= n <= h.len(),
        !w.has_activity,
        forall|i: int, j: int| 0 <= i <= j < h.len() ==> h[i].time() <= h[j].time(),
        forall|i: int| 0 <= i < h.len() ==> w.last_activity <= (#[trigger] h[i]).time(),
    ensures
        w.after_all(h, n).has_activity <==> exists|k: int| 0 <= k < n && w.disturbed_at(h, k),
        forall|k: int|
            0 <= k < n && #[trigger] w.disturbed_at(h, k) ==> h[k].time() <= w.after_all(
                h,
                n,
            ).last_activity,
        n > 0 ==> w.after_all(h, n).last_activity <= h[n - 1].time(),
        n == 0 ==> w.after_all(h, n).last_activity == w.last_activity,
    decreases n,
{
    if n > 0 {
        lemma_last_activity(w, h, n - 1);
        lemma_constant(w, h, n - 1);
        let k = n - 1;
        if w.disturbed_at(h, k) {
            assert(w.after_all(h, n).has_activity);
        } else {
            assert(w.after_all(h, n).has_activity == w.after_all(h, n - 1).has_activity);
            assert(w.after_all(h, n).last_activity == w.after_all(h, n - 1).last_activity);
        }
    }
}

/// Law: a wait for the next screen that is not timed out ends only after at
/// least one update, and only once no update came for its settling time.
pub proof fn law_next_screen_needs_an_update_and_silence<C>(
    w: WaitView,
    h: Seq<Moment<C>>,
    state: DesktopState<C>,
    now: u64,
    quiet_time: u128,
)
    requires
        untouched(w),
        w.quiet_time == Some(quiet_time),
        w.require_activity,
        forall|i: int, j: int| 0 <= i <= j < h.len() ==> h[i].time() <= h[j].time(),
        forall|i: int| 0 <= i < h.len() ==> w.last_activity <= (#[trigger] h[i]).time() <= now,
        state.verdict(w.after_all(h, h.len() as int), now) == Some(false),
    ensures
        exists|k: int| 0 <= k < h.len() && w.disturbed_at(h, k),
        forall|k: int|
            0 <= k < h.len() && #[trigger] w.disturbed_at(h, k) ==> h[k].time() + quiet_time <= now,
{
    lemma_last_activity(w, h, h.len() as int);
    lemma_constant(w, h, h.len() as int);
}

proof fn lemma_time_of_the_last_update<C>(w: WaitView, h: Seq<Moment<C>>, last: int, n: int)
    requires
        0 <= last < n <= h.len(),
        w.disturbed_at(h, last),
        forall|k: int| last < k < n ==> !w.disturbed_at(h, k),
    ensures
        w.after_all(h, n).has_activity,
        w.after_all(h, n).last_activity == h[last].time(),
    decreases n,
{
    lemma_constant(w, h, n - 1);
    if last < n - 1 {
        lemma_time_of_the_last_update(w, h, last, n - 1);
        assert(!w.disturbed_at(h, n - 1));
    }
}

/// Law: a wait with a settling time ends, not timed out, when its round is
/// answered that long after the latest update, and after the grace for windows
/// that cannot be pinged.
pub proof fn law_silence_after_an_update_ends_a_wait<C>(
    w: WaitView,
    h: Seq<Moment<C>>,
    state: DesktopState<C>,
    now: u64,
    quiet_time: u128,
    last: int,
)
    requires
        w.quiet_time == Some(quiet_time),
        0 <= last < h.len(),
        w.disturbed_at(h, last),
        forall|k: int| last < k < h.len() ==> !w.disturbed_at(h, k),
        h[last].time() + quiet_time <= now,
        state.needs_grace(w) ==> h[last].time() + X11_SETTLE_GRACE <= now,
        state.round_ends(w.after_all(h, h.len() as int), now),
    ensures
        state.verdict(w.after_all(h, h.len() as int), now) == Some(false),
{
    let n = h.len() as int;
    lemma_time_of_the_last_update(w, h, last, n);
    lemma_constant(w, h, n);
    lemma_same_grace(state, w, w.after_all(h, n));
}

proof fn lemma_nothing_happened<C>(w: WaitView, h: Seq<Moment<C>>, n: int)
    requires
        0 <= n <= h.len(),
        forall|k: int| 0 <= k < n ==> !w.disturbed_at(h, k),
    ensures
        w.after_all(h, n).last_activity == w.last_activity,
    decreases n,
{
    if n > 0 {
        lemma_constant(w, h, n - 1);
        lemma_nothing_happened(w, h, n - 1);
        assert(!w.disturbed_at(h, n - 1));
    }
}

/// Law: a wait with a settling time that requires no update ends, not timed
/// out, when its round is answered that long after its start and nothing
/// happened, and after the grace for windows that cannot be pinged.
pub proof fn law_silence_from_the_start_ends_a_wait<C>(
    w: WaitView,
    h: Seq<Moment<C>>,
    state: DesktopState<C>,
    now: u64,
    quiet_time: u128,
)
    requires
        w.quiet_time == Some(quiet_time),
        !w.require_activity,
        forall|k: int| 0 <= k < h.len() ==> !w.disturbed_at(h, k),
        w.last_activity + quiet_time <= now,
        state.needs_grace(w) ==> w.last_activity + X11_SETTLE_GRACE <= now,
        state.round_ends(w.after_all(h, h.len() as int), now),
    ensures
        state.verdict(w.after_all(h, h.len() as int), now) == Some(false),
{
    let n = h.len() as int;
    lemma_nothing_happened(w, h, n);
    lemma_constant(w, h, n);
    lemma_same_grace(state, w, w.after_all(h, n));
}

/// Law: a wait that is looked at is timed out exactly from its deadline on,
/// and from then on it is over in any case.
pub proof fn law_timed_out_exactly_from_the_deadline<C>(
    state: DesktopState<C>,
    w: WaitView,
    now: u64,
)
    ensures
        state.verdict(w, now) == Some(true) <==> now >= w.deadline,
{
}

/// The tickets of pending waits.
pub open spec fn pending_tickets(waits: Seq<WaitView>) -> Seq<u64> {
    waits.map_values(|w: WaitView| w.reply)
}

/// The tickets of finished waits.
pub open spec fn answered_tickets(done: Seq<(WaitView, bool)>) -> Seq<u64> {
    done.map_values(|d: (WaitView, bool)| d.0.reply)
}

/// Law: looking at the waits answers or keeps every one of them, none twice.
pub proof fn law_every_wait_is_kept_or_answered_once<C>(
    state: DesktopState<C>,
    waits: Seq<WaitView>,
    now: u64,
)
    ensures
        pending_tickets(waits).to_multiset() == pending_tickets(
            state.kept(waits, now),
        ).to_multiset().add(answered_tickets(state.over(waits, now)).to_multiset()),
    decreases waits.len(),
{
    broadcast use vstd::seq_lib::group_to_multiset_ensures;

    let kept = state.kept(waits, now);
    let over = state.over(waits, now);
    if waits.len() == 0 {
        assert(pending_tickets(waits) =~= Seq::<u64>::empty());
        assert(pending_tickets(kept) =~= Seq::<u64>::empty());
        assert(answered_tickets(over) =~= Seq::<u64>::empty());
        assert(pending_tickets(waits).to_multiset() =~= pending_tickets(kept).to_multiset().add(
            answered_tickets(over).to_multiset(),
        ));
    } else {
        let rest = waits.drop_last();
        let w = waits.last();
        let old_kept = state.kept(rest, now);
        let old_over = state.over(rest, now);
        law_every_wait_is_kept_or_answered_once(state, rest, now);
        assert(pending_tickets(waits) =~= pending_tickets(rest).push(w.reply));
        match state.verdict(w, now) {
            None => {
                assert(pending_tickets(kept) =~= pending_tickets(old_kept).push(w.reply));
            },
            Some(timed_out) => {
                let one = seq![w.reply];
                assert(answered_tickets(over) =~= one + answered_tickets(old_over));
                vstd::seq_lib::lemma_multiset_commutative(one, answered_tickets(old_over));
                assert(one =~= Seq::<u64>::empty().push(w.reply));
            },
        }
        assert(pending_tickets(waits).to_multiset() =~= pending_tickets(kept).to_multiset().add(
            answered_tickets(over).to_multiset(),
        ));
    }
}

/// Law: a wait that watches one window does not notice what the other windows
/// do that were there when it started, and does notice every new window.
pub proof fn law_watching_one_window(w: WaitView, watched: u64, id: u64, now: u64)
    requires
        w.watch == Some(watched),
    ensures
        id != watched && w.known_at_start.contains(id) ==> w.after_activity(id, now) == w
            && w.after_close(id, now) == w,
        id == watched || !w.known_at_start.contains(id) ==> w.after_activity(
            id,
            now,
        ).changed.contains(id) && w.after_close(id, now).closed.last() == id,
{
}

/// Law: a launch settles only once a window is there that was not there
/// before.
pub proof fn law_launch_waits_for_a_window<C>(state: DesktopState<C>, w: WaitView, now: u64)
    requires
        w.expect_new_window,
        state.verdict(w, now) == Some(false),
    ensures
        exists|id: u64| crate::comp::has_id(state.windows@, id) && !w.known_at_start.contains(id),
{
    let ids = crate::comp::ids(state.windows@);
    assert(!ids.subset_of(w.known_at_start));
    let id = choose|id: u64| ids.contains(id) && !w.known_at_start.contains(id);
    assert(crate::comp::has_id(state.windows@, id));
}

/// Law: a transition that involves an X11 window that cannot be pinged settles
/// only 400 ms after the last update.
pub proof fn law_unpingable_windows_get_a_grace<C>(state: DesktopState<C>, w: WaitView, now: u64)
    requires
        state.needs_grace(w),
        state.verdict(w, now) == Some(false),
    ensures
        crate::tracker::elapsed(w.last_activity, now) >= X11_SETTLE_GRACE,
{
}

proof fn lemma_clients_complete(
    windows: Seq<crate::comp::Window>,
    watch: Option<u64>,
    known: Set<u64>,
    i: int,
)
    requires
        0 <= i < windows.len(),
        crate::tracker::relevant(watch, known, windows[i].id),
        windows[i].surface matches Surface::Wayland { client: Some(_) },
    ensures
        crate::tracker::clients(windows, watch, known).contains(
            windows[i].surface->client->Some_0,
        ),
    decreases windows.len(),
{
    let key = windows[i].surface->client->Some_0;
    let before = crate::tracker::clients(windows.drop_last(), watch, known);
    let now = crate::tracker::clients(windows, watch, known);
    if i < windows.len() - 1 {
        lemma_clients_complete(windows.drop_last(), watch, known, i);
        let j = choose|j: int| 0 <= j < before.len() && before[j] == key;
        assert(now[j] == key);
    } else if !before.contains(key) {
        assert(now[now.len() - 1] == key);
    }
}

proof fn lemma_x11_complete(
    windows: Seq<crate::comp::Window>,
    support: Map<u32, bool>,
    watch: Option<u64>,
    known: Set<u64>,
    i: int,
)
    requires
        0 <= i < windows.len(),
        crate::tracker::relevant(watch, known, windows[i].id),
        windows[i].surface is X11,
        support.contains_key(windows[i].surface->window),
        support[windows[i].surface->window],
    ensures
        crate::tracker::x11_targets(windows, support, watch, known).contains(
            windows[i].surface->window,
        ),
    decreases windows.len(),
{
    let w = windows[i].surface->window;
    let before = crate::tracker::x11_targets(windows.drop_last(), support, watch, known);
    let now = crate::tracker::x11_targets(windows, support, watch, known);
    if i < windows.len() - 1 {
        lemma_x11_complete(windows.drop_last(), support, watch, known, i);
        let j = choose|j: int| 0 <= j < before.len() && before[j] == w;
        assert(now[j] == w);
    } else {
        assert(now[now.len() - 1] == w);
    }
}

/// The key under which the client of a window is pinged, if it can be.
pub open spec fn ping_key_of<C>(state: DesktopState<C>, window: crate::comp::Window) -> Option<
    PingKey,
> {
    match window.surface {
        Surface::Wayland { client: Some(key) } => Some(PingKey::Wayland(key)),
        Surface::Wayland { client: None } => None,
        Surface::X11 { window: w } => if state.unpingable(window) {
            None
        } else {
            Some(PingKey::X11(w))
        },
    }
}

proof fn lemma_targets_complete<C>(
    state: DesktopState<C>,
    watch: Option<u64>,
    known: Set<u64>,
    i: int,
)
    requires
        0 <= i < state.windows@.len(),
        crate::tracker::relevant(watch, known, state.windows@[i].id),
        ping_key_of(state, state.windows@[i]) is Some,
    ensures
        crate::tracker::ping_keys(
            crate::tracker::clients(state.windows@, watch, known),
            crate::tracker::x11_targets(state.windows@, state.x11_ping_support@, watch, known),
        ).contains(ping_key_of(state, state.windows@[i])->Some_0),
{
    let c = crate::tracker::clients(state.windows@, watch, known);
    let x = crate::tracker::x11_targets(state.windows@, state.x11_ping_support@, watch, known);
    let all = crate::tracker::ping_keys(c, x);
    match state.windows@[i].surface {
        Surface::Wayland { client: Some(key) } => {
            lemma_clients_complete(state.windows@, watch, known, i);
            let j = choose|j: int| 0 <= j < c.len() && c[j] == key;
            assert(all[j] == PingKey::Wayland(key));
        },
        Surface::X11 { window: v } => {
            lemma_x11_complete(state.windows@, state.x11_ping_support@, watch, known, i);
            let j = choose|j: int| 0 <= j < x.len() && x[j] == v;
            assert(all[c.len() + j] == PingKey::X11(v));
        },
        _ => {},
    }
}

/// Law: a ping round asks the client of every window that the wait cares
/// about, as far as it can be pinged.
pub proof fn law_a_round_asks_every_relevant_client<C>(state: DesktopState<C>, w: WaitView, i: int)
    requires
        0 <= i < state.windows@.len(),
        w.cares(state.windows@[i].id),
        ping_key_of(state, state.windows@[i]) is Some,
    ensures
        state.round_targets(w).contains(ping_key_of(state, state.windows@[i])->Some_0),
{
    lemma_targets_complete(state, w.watch, w.known_at_start, i);
}

proof fn lemma_add_due(pings: Map<PingKey, PingState>, acc: Seq<PingKey>, keys: Seq<PingKey>)
    requires
        acc.no_duplicates(),
        forall|i: int| 0 <= i < acc.len() ==> !crate::tracker::awaits(pings, #[trigger] acc[i]),
    ensures
        ({
            let all = crate::tracker::add_due(pings, acc, keys);
            &&& all.no_duplicates()
            &&& forall|i: int|
                0 <= i < all.len() ==> !crate::tracker::awaits(pings, #[trigger] all[i])
            &&& forall|k: PingKey| all.contains(k) ==> acc.contains(k) || keys.contains(k)
            &&& forall|k: PingKey|
                keys.contains(k) && !crate::tracker::awaits(pings, k) ==> all.contains(k)
        }),
    decreases keys.len(),
{
    if keys.len() > 0 {
        lemma_add_due(pings, acc, keys.drop_last());
        let before = crate::tracker::add_due(pings, acc, keys.drop_last());
        let all = crate::tracker::add_due(pings, acc, keys);
        assert forall|k: PingKey| all.contains(k) implies acc.contains(k) || keys.contains(k) by {
            let i = choose|i: int| 0 <= i < all.len() && all[i] == k;
            if i < before.len() {
                assert(before[i] == k);
                if keys.drop_last().contains(k) {
                    let j = choose|j: int|
                        0 <= j < keys.drop_last().len() && keys.drop_last()[j] == k;
                    assert(keys[j] == k);
                }
            } else {
                assert(keys[keys.len() - 1] == k);
            }
        }
        assert forall|k: PingKey|
            keys.contains(k) && !crate::tracker::awaits(pings, k) implies all.contains(k) by {
            let j = choose|j: int| 0 <= j < keys.len() && keys[j] == k;
            if j < keys.len() - 1 {
                assert(keys.drop_last()[j] == k);
            }
            if before.contains(k) {
                let i = choose|i: int| 0 <= i < before.len() && before[i] == k;
                assert(all[i] == k);
            } else {
                assert(all[before.len() as int] == k);
            }
        }
    }
}

/// Law: the pings that are due go to each client at most once, and to none
/// that still owes an answer.
pub proof fn law_no_client_is_pinged_twice<C>(
    state: DesktopState<C>,
    waits: Seq<WaitView>,
    now: u64,
)
    ensures
        state.due(waits, now).no_duplicates(),
        forall|i: int|
            0 <= i < state.due(waits, now).len() ==> !crate::tracker::awaits(
                state.ping_states@,
                #[trigger] state.due(waits, now)[i],
            ),
    decreases waits.len(),
{
    if waits.len() > 0 {
        law_no_client_is_pinged_twice(state, waits.drop_last(), now);
        if DesktopState::<C>::starts_round(waits.last(), now) {
            lemma_add_due(
                state.ping_states@,
                state.due(waits.drop_last(), now),
                state.round_targets(waits.last()),
            );
        }
    }
}

/// Law: the heartbeat, too, goes to each client at most once and to none that
/// still owes an answer.
pub proof fn law_heartbeat_pings_no_client_twice<C>(state: DesktopState<C>)
    ensures
        state.heartbeat_keys().no_duplicates(),
        forall|i: int|
            0 <= i < state.heartbeat_keys().len() ==> !crate::tracker::awaits(
                state.ping_states@,
                #[trigger] state.heartbeat_keys()[i],
            ),
{
    lemma_add_due(state.ping_states@, Seq::empty(), state.heartbeat_targets());
}

/// Law: the heartbeat reaches the client of every window that can be pinged
/// and owes no answer.
pub proof fn law_heartbeat_reaches_every_client<C>(state: DesktopState<C>, i: int)
    requires
        0 <= i < state.windows@.len(),
        ping_key_of(state, state.windows@[i]) is Some,
        !crate::tracker::awaits(
            state.ping_states@,
            ping_key_of(state, state.windows@[i])->Some_0,
        ),
    ensures
        state.heartbeat_keys().contains(ping_key_of(state, state.windows@[i])->Some_0),
{
    lemma_targets_complete(state, None, Set::empty(), i);
    lemma_add_due(state.ping_states@, Seq::empty(), state.heartbeat_targets());
}

proof fn lemma_unanswered_is_kept(
    pings: Map<PingKey, PingState>,
    key: PingKey,
    orders: Seq<PingOrder>,
    outcomes: Seq<PingOutcome>,
    now: u64,
)
    requires
        crate::tracker::awaits(pings, key),
    ensures
        crate::tracker::awaits(crate::tracker::recorded_all(pings, orders, outcomes, now), key),
        crate::tracker::recorded_all(pings, orders, outcomes, now)[key] == pings[key],
    decreases orders.len(),
{
    if orders.len() > 0 && outcomes.len() > 0 {
        lemma_unanswered_is_kept(pings, key, orders.drop_last(), outcomes.drop_last(), now);
    }
}

/// Law: a client that owes the answer to a ping is frozen once more than ten
/// seconds have passed since it was sent, whatever pings were attempted in
/// between.
pub proof fn law_frozen_after_ten_seconds_of_silence<C>(
    before: DesktopState<C>,
    after: DesktopState<C>,
    key: PingKey,
    serial: u32,
    sent: u64,
    orders: Seq<PingOrder>,
    outcomes: Seq<PingOutcome>,
    between: u64,
    now: u64,
)
    requires
        before.ping_states@.contains_key(key),
        before.ping_states@[key].outstanding == Some((serial, sent)),
        after.ping_states@ == crate::tracker::recorded_all(
            before.ping_states@,
            orders,
            outcomes,
            between,
        ),
    ensures
        after.frozen(key, now) <==> now > sent + FROZEN_AFTER,
{
    lemma_unanswered_is_kept(before.ping_states@, key, orders, outcomes, between);
}

/// Law: a client that just answered is not frozen, and a client that was never
/// pinged is not.
pub proof fn law_answering_thaws<C>(
    before: DesktopState<C>,
    after: DesktopState<C>,
    key: PingKey,
    answered: u64,
    now: u64,
)
    requires
        after.ping_states@ == before.ping_states@.insert(
            key,
            PingState { outstanding: None, last_pong: answered },
        ),
    ensures
        !after.frozen(key, now),
        !before.ping_states@.contains_key(key) ==> !before.frozen(key, now),
{
}

/// Whether all X11 windows that were ever pinged take part in pings.
pub open spec fn pinged_supported(pings: Map<PingKey, PingState>, support: Map<u32, bool>) -> bool {
    forall|w: u32|
        pings.contains_key(PingKey::X11(w)) ==> #[trigger] support.contains_key(w) && support[w]
}

/// Whether all X11 windows among these take part in pings.
pub open spec fn only_supported(keys: Seq<PingKey>, support: Map<u32, bool>) -> bool {
    forall|i: int|
        0 <= i < keys.len() ==> (#[trigger] keys[i] matches PingKey::X11(w) ==> support.contains_key(
            w,
        ) && support[w])
}

proof fn lemma_targets_supported(
    windows: Seq<crate::comp::Window>,
    support: Map<u32, bool>,
    watch: Option<u64>,
    known: Set<u64>,
)
    ensures
        forall|i: int|
            0 <= i < crate::tracker::x11_targets(windows, support, watch, known).len()
                ==> support.contains_key(
                #[trigger] crate::tracker::x11_targets(windows, support, watch, known)[i],
            ) && support[crate::tracker::x11_targets(windows, support, watch, known)[i]],
    decreases windows.len(),
{
    if windows.len() > 0 {
        lemma_targets_supported(windows.drop_last(), support, watch, known);
        let before = crate::tracker::x11_targets(windows.drop_last(), support, watch, known);
        let all = crate::tracker::x11_targets(windows, support, watch, known);
        assert forall|i: int| 0 <= i < all.len() implies support.contains_key(#[trigger] all[i])
            && support[all[i]] by {
            if i < before.len() {
                assert(all[i] == before[i]);
            }
        }
    }
}

proof fn lemma_keys_supported(
    windows: Seq<crate::comp::Window>,
    support: Map<u32, bool>,
    watch: Option<u64>,
    known: Set<u64>,
)
    ensures
        only_supported(
            crate::tracker::ping_keys(
                crate::tracker::clients(windows, watch, known),
                crate::tracker::x11_targets(windows, support, watch, known),
            ),
            support,
        ),
{
    lemma_targets_supported(windows, support, watch, known);
    let c = crate::tracker::clients(windows, watch, known);
    let x = crate::tracker::x11_targets(windows, support, watch, known);
    let all = crate::tracker::ping_keys(c, x);
    assert forall|i: int| 0 <= i < all.len() implies (#[trigger] all[i] matches PingKey::X11(w)
        ==> support.contains_key(w) && support[w]) by {
        if i >= c.len() {
            assert(all[i] == PingKey::X11(x[i - c.len()]));
        } else {
            assert(all[i] == PingKey::Wayland(c[i]));
        }
    }
}

proof fn lemma_due_supported(
    pings: Map<PingKey, PingState>,
    acc: Seq<PingKey>,
    keys: Seq<PingKey>,
    support: Map<u32, bool>,
)
    requires
        only_supported(acc, support),
        only_supported(keys, support),
    ensures
        only_supported(crate::tracker::add_due(pings, acc, keys), support),
    decreases keys.len(),
{
    if keys.len() > 0 {
        assert(only_supported(keys.drop_last(), support)) by {
            assert forall|i: int| 0 <= i < keys.drop_last().len() implies (#[trigger] keys.drop_last()[i] matches PingKey::X11(
                w,
            ) ==> support.contains_key(w) && support[w]) by {
                assert(keys[i] == keys.drop_last()[i]);
            }
        }
        lemma_due_supported(pings, acc, keys.drop_last(), support);
        assert(keys[keys.len() - 1] == keys.last());
    }
}

proof fn lemma_all_due_supported<C>(state: DesktopState<C>, waits: Seq<WaitView>, now: u64)
    ensures
        only_supported(state.due(waits, now), state.x11_ping_support@),
    decreases waits.len(),
{
    if waits.len() > 0 {
        lemma_all_due_supported(state, waits.drop_last(), now);
        let w = waits.last();
        lemma_keys_supported(
            state.windows@,
            state.x11_ping_support@,
            w.watch,
            w.known_at_start,
        );
        if DesktopState::<C>::starts_round(w, now) {
            lemma_due_supported(
                state.ping_states@,
                state.due(waits.drop_last(), now),
                state.round_targets(w),
                state.x11_ping_support@,
            );
        }
    }
}

proof fn lemma_recorded_supported(
    pings: Map<PingKey, PingState>,
    keys: Seq<PingKey>,
    serial: u32,
    outcomes: Seq<PingOutcome>,
    now: u64,
    support: Map<u32, bool>,
)
    requires
        pinged_supported(pings, support),
        only_supported(keys, support),
    ensures
        pinged_supported(
            crate::tracker::recorded_all(
                pings,
                crate::tracker::ping_orders(keys, serial),
                outcomes,
                now,
            ),
            support,
        ),
    decreases keys.len(),
{
    let orders = crate::tracker::ping_orders(keys, serial);
    if keys.len() > 0 && outcomes.len() > 0 {
        let rest = keys.drop_last();
        assert(only_supported(rest, support)) by {
            assert forall|i: int| 0 <= i < rest.len() implies (#[trigger] rest[i] matches PingKey::X11(
                w,
            ) ==> support.contains_key(w) && support[w]) by {
                assert(keys[i] == rest[i]);
            }
        }
        lemma_recorded_supported(pings, rest, serial, outcomes.drop_last(), now, support);
        assert(orders.drop_last() =~= crate::tracker::ping_orders(rest, serial));
        assert(orders.last().key() == keys[keys.len() - 1]);
        let before = crate::tracker::recorded_all(
            pings,
            orders.drop_last(),
            outcomes.drop_last(),
            now,
        );
        let after = crate::tracker::recorded_all(pings, orders, outcomes, now);
        assert forall|w: u32| after.contains_key(PingKey::X11(w)) implies #[trigger] support.contains_key(
            w,
        ) && support[w] by {
            if !before.contains_key(PingKey::X11(w)) {
                assert(keys[keys.len() - 1] == PingKey::X11(w));
            }
        }
    }
}

/// Law: an X11 window that takes no part in pings is never pinged, neither for
/// a wait nor by the heartbeat, and so is never frozen.
pub proof fn law_legacy_windows_never_freeze<C>(
    state: DesktopState<C>,
    waits: Seq<WaitView>,
    outcomes: Seq<PingOutcome>,
    now: u64,
)
    requires
        pinged_supported(state.ping_states@, state.x11_ping_support@),
    ensures
        pinged_supported(
            crate::tracker::recorded_all(
                state.ping_states@,
                crate::tracker::ping_orders(state.due(waits, now), state.next_x11_serial),
                outcomes,
                now,
            ),
            state.x11_ping_support@,
        ),
        pinged_supported(
            crate::tracker::recorded_all(
                state.ping_states@,
                crate::tracker::ping_orders(state.heartbeat_keys(), state.next_x11_serial),
                outcomes,
                now,
            ),
            state.x11_ping_support@,
        ),
        forall|i: int|
            0 <= i < state.windows@.len() && state.unpingable(#[trigger] state.windows@[i])
                ==> !state.window_frozen(state.windows@[i], now),
{
    let support = state.x11_ping_support@;
    lemma_all_due_supported(state, waits, now);
    lemma_recorded_supported(
        state.ping_states@,
        state.due(waits, now),
        state.next_x11_serial,
        outcomes,
        now,
        support,
    );
    let all = crate::tracker::ping_keys(
        crate::tracker::clients(state.windows@, None, Set::empty()),
        crate::tracker::x11_targets(state.windows@, support, None, Set::empty()),
    );
    lemma_keys_supported(state.windows@, support, None, Set::empty());
    lemma_due_supported(state.ping_states@, Seq::empty(), all, support);
    lemma_recorded_supported(
        state.ping_states@,
        state.heartbeat_keys(),
        state.next_x11_serial,
        outcomes,
        now,
        support,
    );
    assert forall|i: int|
        0 <= i < state.windows@.len() && state.unpingable(
            #[trigger] state.windows@[i],
        ) implies !state.window_frozen(state.windows@[i], now) by {
        let w = state.windows@[i].surface->window;
        if state.ping_states@.contains_key(PingKey::X11(w)) {
            assert(support.contains_key(w));
        }
    }
}

/// Whether this window committed something at moment `k` and the wait cares.
pub open spec fn commits_at<C>(w: WaitView, h: Seq<Moment<C>>, id: u64, k: int) -> bool {
    h[k] matches Moment::Update { id: i, .. } && i == id && w.cares(id)
}

/// The windows that the wait cares about and that closed before moment `n`, in
/// order.
pub open spec fn closings<C>(w: WaitView, h: Seq<Moment<C>>, n: int) -> Seq<u64>
    decreases n,
{
    if n <= 0 {
        Seq::empty()
    } else {
        let before = closings(w, h, n - 1);
        match h[n - 1] {
            Moment::Closing { id, .. } => if w.cares(id) {
                before.push(id)
            } else {
                before
            },
            _ => before,
        }
    }
}

/// Law: a wait remembers exactly the windows that committed something and
/// those that closed while it was pending, as far as it cares about them.
pub proof fn law_changes_are_remembered<C>(w: WaitView, h: Seq<Moment<C>>, n: int)
    requires
        0 <= n <= h.len(),
        w.changed == Set::<u64>::empty(),
        w.closed == Seq::<u64>::empty(),
    ensures
        forall|id: u64|
            w.after_all(h, n).changed.contains(id) <==> exists|k: int|
                0 <= k < n && #[trigger] commits_at(w, h, id, k),
        w.after_all(h, n).closed == closings(w, h, n),
    decreases n,
{
    if n > 0 {
        law_changes_are_remembered(w, h, n - 1);
        lemma_constant(w, h, n - 1);
        let before = w.after_all(h, n - 1);
        let after = w.after_all(h, n);
        assert forall|id: u64| after.changed.contains(id) <==> exists|k: int|
            0 <= k < n && #[trigger] commits_at(w, h, id, k) by {
            if after.changed.contains(id) {
                if before.changed.contains(id) {
                    let k = choose|k: int| 0 <= k < n - 1 && #[trigger] commits_at(w, h, id, k);
                    assert(commits_at(w, h, id, k));
                } else {
                    assert(commits_at(w, h, id, n - 1));
                }
            }
            if exists|k: int| 0 <= k < n && #[trigger] commits_at(w, h, id, k) {
                let k = choose|k: int| 0 <= k < n && #[trigger] commits_at(w, h, id, k);
                if k < n - 1 {
                    assert(before.changed.contains(id));
                }
            }
        }
    }
}

/// Law: the reply of an X11 window counts exactly if it carries the serial of
/// the ping that it owes an answer to; stale replies change nothing.
pub proof fn law_stale_x11_replies_are_ignored(
    pings: Map<PingKey, PingState>,
    window: u32,
    serial: u32,
    sent: u64,
    replied: u32,
    now: u64,
)
    requires
        pings.contains_key(PingKey::X11(window)),
        pings[PingKey::X11(window)].outstanding == Some((serial, sent)),
    ensures
        crate::tracker::awaits(
            crate::tracker::x11_answered(pings, window, replied, now),
            PingKey::X11(window),
        ) <==> replied != serial,
        replied != serial ==> crate::tracker::x11_answered(pings, window, replied, now) == pings,
{
}

} // verus!
