//! Restart supervision: whether a task that ended is started again.
//!
//! The policy belongs to an entry point and never changes. How often an entry
//! point was restarted is history that outlives its tasks, so both are kept by
//! entry point and not by task.

use vstd::prelude::*;

use crate::duration::Duration;

verus! {

/// Stable index of a known task entry point.
#[derive(Debug, Clone, Copy, PartialEq, Eq, Structural)]
pub enum EntryPointId {
    /// The idle task. Never restarted: it is the scheduler loop.
    Idle,
    /// The application task. Restartable only if a policy is set.
    AppTask,
}

/// Restart policy of an entry point.
#[derive(Debug, Clone, Copy, PartialEq, Eq, Structural)]
pub enum RestartPolicy {
    /// Never restart.
    Never,
    /// Restart on every death.
    Always,
    /// Restart at most `count` times within any window of time.
    MaxN { count: u32, window: Duration },
}

impl RestartPolicy {
    /// The window is a proper span of time.
    pub open spec fn wf(&self) -> bool {
        match self {
            RestartPolicy::MaxN { window, .. } => window.wf(),
            _ => true,
        }
    }
}

/// The policy of an entry point and when it was restarted.
pub struct RestartEntry {
    policy: RestartPolicy,
    restart_count: u32,
    times: Vec<u64>,
}

/// The length of a window in microseconds.
pub open spec fn window_micros(window: Duration) -> int {
    window@ / 1_000
}

/// Whether a restart at `t` lies in the window of `micros` microseconds that ends
/// at `now`. A window of less than a microsecond never ends. A restart that seems
/// to lie in the future, because the clock went back, counts as one of now.
pub open spec fn recent(t: u64, now: u64, micros: int) -> bool {
    micros == 0 || now - t < micros
}

/// How many of the restarts at `times` lie in the window that ends at `now`.
pub open spec fn recent_count(times: Seq<u64>, now: u64, micros: int) -> int
    decreases times.len(),
{
    if times.len() == 0 {
        0
    } else {
        recent_count(times.drop_last(), now, micros) + (if recent(times.last(), now, micros) {
            1int
        } else {
            0int
        })
    }
}

/// The last `n` of `times`, or all if there are fewer.
pub open spec fn last_n(times: Seq<u64>, n: int) -> Seq<u64> {
    if times.len() > n {
        times.skip(times.len() - n)
    } else {
        times
    }
}

/// One more, unless that does not fit.
pub open spec fn saturating_inc(n: u32) -> u32 {
    if n == u32::MAX {
        n
    } else {
        (n + 1) as u32
    }
}

impl RestartEntry {
    /// The policy.
    pub closed spec fn spec_policy(&self) -> RestartPolicy {
        self.policy
    }

    /// How often the entry point was restarted, as far as that can be counted.
    pub closed spec fn count(&self) -> u32 {
        self.restart_count
    }

    /// When the last restarts were, in order: as many as the policy allows in a
    /// window.
    pub closed spec fn times(&self) -> Seq<u64> {
        self.times@
    }

    /// The policy is well-formed, and no more restarts are kept than it allows
    /// in a window.
    pub open spec fn wf(&self) -> bool {
        &&& self.spec_policy().wf()
        &&& match self.spec_policy() {
            RestartPolicy::MaxN { count, .. } => self.times().len() <= count,
            _ => true,
        }
    }

    /// Whether a death at `now` may be followed by a restart.
    pub open spec fn permits(&self, now: u64) -> bool {
        match self.spec_policy() {
            RestartPolicy::Never => false,
            RestartPolicy::Always => true,
            RestartPolicy::MaxN { count, window } => recent_count(
                self.times(),
                now,
                window_micros(window),
            ) < count,
        }
    }

    /// Whether `after` is this entry once a death at `now` was looked at.
    pub open spec fn looked_at(&self, now: u64, after: RestartEntry) -> bool {
        &&& after.spec_policy() == self.spec_policy()
        &&& after.count() == (if self.permits(now) {
            saturating_inc(self.count())
        } else {
            self.count()
        })
        &&& after.times() == (match self.spec_policy() {
            RestartPolicy::MaxN { count, .. } if self.permits(now) => last_n(
                self.times().push(now),
                count as int,
            ),
            _ => self.times(),
        })
    }

    /// An entry without history.
    pub fn new(policy: RestartPolicy) -> (r: Self)
        ensures
            r.spec_policy() == policy,
            r.count() == 0,
            r.times() == Seq::<u64>::empty(),
    {
        RestartEntry { policy, restart_count: 0, times: Vec::new() }
    }

    /// The policy.
    pub fn policy(&self) -> (r: RestartPolicy)
        ensures
            r == self.spec_policy(),
    {
        self.policy
    }

    /// How many of the restarts that are kept lie in the window of `micros`
    /// microseconds that ends at `now`.
    fn restarts_in_window(&self, now: u64, micros: u128) -> (r: usize)
        ensures
            r == recent_count(self.times(), now, micros as int),
    {
        let mut n: usize = 0;
        let mut i: usize = 0;
        while i < self.times.len()
            invariant
                n <= i <= self.times@.len(),
                n == recent_count(self.times@.take(i as int), now, micros as int),
            decreases self.times@.len() - i,
        {
            let t: u64 = self.times[i];
            assert(self.times@.take(i + 1).drop_last() =~= self.times@.take(i as int));
            if micros == 0 || (now.saturating_sub(t) as u128) < micros {
                n += 1;
            }
            i += 1;
        }
        assert(self.times@.take(i as int) =~= self.times@);
        n
    }

    /// Whether a death at `now` may be followed by a restart; if so, the
    /// restart is counted. `now` is in microseconds.
    pub fn may_restart(&mut self, now: u64) -> (r: bool)
        requires
            old(self).wf(),
        ensures
            final(self).wf(),
            r == old(self).permits(now),
            old(self).looked_at(now, *final(self)),
    {
        match self.policy {
            RestartPolicy::Never => false,
            RestartPolicy::Always => {
                self.restart_count = self.restart_count.saturating_add(1);
                true
            },
            RestartPolicy::MaxN { count, window } => {
                let granted: usize = self.restarts_in_window(now, window.as_micros());
                if (granted as u64) < count as u64 {
                    self.restart_count = self.restart_count.saturating_add(1);
                    let ghost before = self.times@;
                    self.times.push(now);
                    if self.times.len() as u64 > count as u64 {
                        let _ = self.times.remove(0);
                        assert(self.times@ =~= last_n(before.push(now), count as int));
                    }
                    true
                } else {
                    false
                }
            },
        }
    }
}

/// When the entry point was restarted over a history: `entries[i]` is the entry
/// before the death at `times[i]`.
pub open spec fn granted(entries: Seq<RestartEntry>, times: Seq<u64>) -> Seq<u64>
    decreases times.len(),
{
    if times.len() == 0 {
        Seq::empty()
    } else {
        let before = granted(entries, times.drop_last());
        if entries[times.len() - 1].permits(times.last()) {
            before.push(times.last())
        } else {
            before
        }
    }
}

/// Whether `entries` is how the table entry developed over deaths at `times`.
pub open spec fn history(entries: Seq<RestartEntry>, times: Seq<u64>) -> bool {
    &&& entries.len() == times.len() + 1
    &&& forall|i: int|
        0 <= i < times.len() ==> (#[trigger] entries[i]).looked_at(times[i], entries[i + 1])
}

/// Whether each of `times` is at or after the one before.
pub open spec fn ascending(times: Seq<u64>) -> bool {
    forall|i: int, j: int| 0 <= i <= j < times.len() ==> times[i] <= times[j]
}

/// A history without its last death is one.
proof fn lemma_history_prefix(entries: Seq<RestartEntry>, times: Seq<u64>)
    requires
        history(entries, times),
        times.len() > 0,
    ensures
        history(entries.drop_last(), times.drop_last()),
        granted(entries.drop_last(), times.drop_last()) == granted(entries, times.drop_last()),
        entries.drop_last().last() == entries[times.len() - 1],
        entries[times.len() - 1].looked_at(times.last(), entries.last()),
{
    let e = entries.drop_last();
    let t = times.drop_last();
    assert forall|i: int| 0 <= i < t.len() implies (#[trigger] e[i]).looked_at(t[i], e[i + 1]) by {
        assert(entries[i].looked_at(times[i], entries[i + 1]));
    }
    lemma_granted_prefix(entries, e, t);
    let n = times.len() - 1;
    assert(entries[n].looked_at(times[n], entries[n + 1]));
}

/// What lies behind the deaths that are looked at does not change the restarts.
proof fn lemma_granted_prefix(a: Seq<RestartEntry>, b: Seq<RestartEntry>, times: Seq<u64>)
    requires
        a.len() >= times.len(),
        b.len() >= times.len(),
        forall|i: int| 0 <= i < times.len() ==> a[i] == b[i],
    ensures
        granted(a, times) == granted(b, times),
    decreases times.len(),
{
    if times.len() > 0 {
        lemma_granted_prefix(a, b, times.drop_last());
    }
}

/// An entry point without a policy is never restarted.
pub proof fn lemma_never(entries: Seq<RestartEntry>, times: Seq<u64>)
    requires
        history(entries, times),
        entries[0].spec_policy() is Never,
    ensures
        granted(entries, times).len() == 0,
        entries.last().spec_policy() is Never,
    decreases times.len(),
{
    if times.len() > 0 {
        lemma_history_prefix(entries, times);
        lemma_never(entries.drop_last(), times.drop_last());
    }
}

/// An entry point that is always restarted is restarted after every death.
pub proof fn lemma_always(entries: Seq<RestartEntry>, times: Seq<u64>)
    requires
        history(entries, times),
        entries[0].spec_policy() is Always,
    ensures
        granted(entries, times) == times,
        entries.last().spec_policy() is Always,
    decreases times.len(),
{
    if times.len() > 0 {
        lemma_history_prefix(entries, times);
        lemma_always(entries.drop_last(), times.drop_last());
        assert(times.drop_last().push(times.last()) =~= times);
    } else {
        assert(granted(entries, times) =~= times);
    }
}

/// If the last `k` of `times` lie in the window, at least `k` do.
proof fn lemma_recent_tail(times: Seq<u64>, now: u64, micros: int, k: int)
    requires
        0 <= k <= times.len(),
        forall|i: int| times.len() - k <= i < times.len() ==> recent(#[trigger] times[i], now, micros),
    ensures
        k <= recent_count(times, now, micros) <= times.len(),
    decreases times.len(),
{
    if times.len() > 0 {
        let t = times.drop_last();
        assert forall|i: int| t.len() - (k - 1) <= i < t.len() implies recent(
            #[trigger] t[i],
            now,
            micros,
        ) by {
            assert(t[i] == times[i]);
        }
        if k > 0 {
            lemma_recent_tail(t, now, micros, k - 1);
            assert(recent(times[times.len() - 1], now, micros));
        } else {
            lemma_recent_tail(t, now, micros, 0);
        }
    }
}

/// Restart intensity: over any stretch of time shorter than the window, an entry
/// point with `MaxN` is restarted at most as often as the policy's count.
pub proof fn lemma_intensity_any_span(
    entries: Seq<RestartEntry>,
    times: Seq<u64>,
    count: u32,
    window: Duration,
)
    requires
        history(entries, times),
        entries[0].wf(),
        entries[0].spec_policy() == (RestartPolicy::MaxN { count, window }),
        ascending(times),
        times.len() > 0 ==> times.last() - times[0] < window_micros(window),
    ensures
        granted(entries, times).len() <= count,
{
    lemma_span(entries, times, count, window);
}

/// The restarts of the stretch are at most the policy's count, and the last of
/// those that are kept.
proof fn lemma_span(
    entries: Seq<RestartEntry>,
    times: Seq<u64>,
    count: u32,
    window: Duration,
)
    requires
        history(entries, times),
        entries[0].wf(),
        entries[0].spec_policy() == (RestartPolicy::MaxN { count, window }),
        ascending(times),
        times.len() > 0 ==> times.last() - times[0] < window_micros(window),
    ensures
        entries.last().wf(),
        entries.last().spec_policy() == (RestartPolicy::MaxN { count, window }),
        granted(entries, times).len() <= count,
        granted(entries, times).len() <= entries.last().times().len(),
        forall|i: int|
            entries.last().times().len() - granted(entries, times).len() <= i
                < entries.last().times().len() ==> times[0] <= #[trigger] entries.last().times()[i]
                <= times.last(),
    decreases times.len(),
{
    if times.len() > 0 {
        let n = times.len() as int;
        let e = entries.drop_last();
        let t = times.drop_last();
        assert(ascending(t)) by {
            assert forall|i: int, j: int| 0 <= i <= j < t.len() implies t[i] <= t[j] by {
                assert(times[i] <= times[j]);
            }
        }
        if t.len() > 0 {
            assert(times[n - 2] <= times[n - 1]);
        }
        lemma_history_prefix(entries, times);
        lemma_span(e, t, count, window);
        assert(times[0] <= times[n - 1]);
        let now = times.last();
        let before = entries[n - 1];
        let k = granted(e, t).len() as int;
        let micros = window_micros(window);
        assert forall|i: int|
            before.times().len() - k <= i < before.times().len() implies recent(
            #[trigger] before.times()[i],
            now,
            micros,
        ) by {
            assert(times[0] <= before.times()[i]);
        }
        lemma_recent_tail(before.times(), now, micros, k);
        if before.permits(now) {
            let all = before.times().push(now);
            let kept = last_n(all, count as int);
            assert(entries.last().times() == kept);
            let cut = all.len() - kept.len();
            assert forall|i: int| kept.len() - (k + 1) <= i < kept.len() implies times[0]
                <= #[trigger] kept[i] <= now by {
                assert(kept[i] == all[i + cut]);
                if i + cut < before.times().len() {
                    assert(times[0] <= before.times()[i + cut]);
                }
            }
        }
    }
}

/// Splitting the restarts splits their number in the window.
proof fn lemma_recent_split(a: Seq<u64>, b: Seq<u64>, now: u64, micros: int)
    ensures
        recent_count(a + b, now, micros) == recent_count(a, now, micros) + recent_count(
            b,
            now,
            micros,
        ),
    decreases b.len(),
{
    if b.len() > 0 {
        lemma_recent_split(a, b.drop_last(), now, micros);
        assert((a + b).drop_last() =~= a + b.drop_last());
    } else {
        assert(a + b =~= a);
    }
}

/// If none of `times` lies in the window, their number there is 0.
proof fn lemma_none_recent(times: Seq<u64>, now: u64, micros: int)
    requires
        forall|i: int| 0 <= i < times.len() ==> !recent(#[trigger] times[i], now, micros),
    ensures
        recent_count(times, now, micros) == 0,
    decreases times.len(),
{
    if times.len() > 0 {
        let t = times.drop_last();
        assert forall|i: int| 0 <= i < t.len() implies !recent(#[trigger] t[i], now, micros) by {
            assert(t[i] == times[i]);
        }
        lemma_none_recent(t, now, micros);
        assert(!recent(times[times.len() - 1], now, micros));
    }
}

/// If fewer of `times` lie in the window than there are, one does not.
proof fn lemma_one_not_recent(times: Seq<u64>, now: u64, micros: int) -> (k: int)
    requires
        recent_count(times, now, micros) < times.len(),
    ensures
        0 <= k < times.len(),
        !recent(times[k], now, micros),
    decreases times.len(),
{
    if recent(times.last(), now, micros) {
        lemma_one_not_recent(times.drop_last(), now, micros)
    } else {
        times.len() - 1
    }
}

/// An entry that had no history at first keeps the last of all its restarts,
/// which are in order if the deaths are.
proof fn lemma_kept(entries: Seq<RestartEntry>, times: Seq<u64>, count: u32, window: Duration)
    requires
        history(entries, times),
        entries[0].times() == Seq::<u64>::empty(),
        entries[0].spec_policy() == (RestartPolicy::MaxN { count, window }),
        ascending(times),
    ensures
        entries.last().spec_policy() == (RestartPolicy::MaxN { count, window }),
        entries.last().times() == last_n(granted(entries, times), count as int),
        ascending(granted(entries, times)),
        granted(entries, times).len() > 0 ==> granted(entries, times).last() <= times.last(),
        granted(entries, times).len() > 0 ==> times.len() > 0,
    decreases times.len(),
{
    if times.len() > 0 {
        let n = times.len() as int;
        let t = times.drop_last();
        assert(ascending(t)) by {
            assert forall|i: int, j: int| 0 <= i <= j < t.len() implies t[i] <= t[j] by {
                assert(times[i] <= times[j]);
            }
        }
        lemma_history_prefix(entries, times);
        lemma_kept(entries.drop_last(), t, count, window);
        let all = granted(entries.drop_last(), t);
        if t.len() > 0 {
            assert(times[n - 2] <= times[n - 1]);
        }
        assert(entries.last().times() =~= last_n(granted(entries, times), count as int));
        if entries[n - 1].permits(times.last()) {
            let more = all.push(times.last());
            assert forall|i: int, j: int| 0 <= i <= j < more.len() implies more[i] <= more[j] by {
                if j == all.len() && i < all.len() {
                    assert(all[i] <= all[all.len() - 1]);
                }
            }
        }
    } else {
        assert(entries.last().times() =~= last_n(granted(entries, times), count as int));
    }
}

/// The window slides: a death at `now` is followed by a restart exactly if, of
/// all restarts so far, fewer than the policy's count lie in the window that ends
/// then.
pub proof fn lemma_sliding_window(
    entries: Seq<RestartEntry>,
    times: Seq<u64>,
    count: u32,
    window: Duration,
    now: u64,
)
    requires
        history(entries, times),
        entries[0].times() == Seq::<u64>::empty(),
        entries[0].spec_policy() == (RestartPolicy::MaxN { count, window }),
        ascending(times),
    ensures
        entries.last().permits(now) <==> recent_count(
            granted(entries, times),
            now,
            window_micros(window),
        ) < count,
{
    lemma_kept(entries, times, count, window);
    let all = granted(entries, times);
    let kept = entries.last().times();
    let micros = window_micros(window);
    if all.len() > count {
        let old = all.take(all.len() - count);
        assert(all =~= old + kept);
        lemma_recent_split(old, kept, now, micros);
        lemma_recent_tail(old, now, micros, 0);
        lemma_recent_tail(kept, now, micros, 0);
        if recent_count(kept, now, micros) < count {
            let k = lemma_one_not_recent(kept, now, micros);
            assert forall|i: int| 0 <= i < old.len() implies !recent(
                #[trigger] old[i],
                now,
                micros,
            ) by {
                assert(old[i] == all[i] && kept[k] == all[old.len() + k]);
                assert(all[i] <= all[old.len() + k]);
            }
            lemma_none_recent(old, now, micros);
        }
    }
}

/// The restart table: one entry per entry point, in the order of
/// `EntryPointId`.
pub struct RestartTable {
    entries: Vec<RestartEntry>,
}

/// The place of an entry point in the table.
pub open spec fn entry_index(id: EntryPointId) -> int {
    match id {
        EntryPointId::Idle => 0,
        EntryPointId::AppTask => 1,
    }
}

impl View for RestartTable {
    type V = Seq<RestartEntry>;

    /// The entries in the order of `EntryPointId`.
    closed spec fn view(&self) -> Seq<RestartEntry> {
        self.entries@
    }
}

impl RestartTable {
    /// There is one well-formed entry per entry point.
    pub open spec fn wf(&self) -> bool {
        &&& self@.len() == 2
        &&& self@[0].wf()
        &&& self@[1].wf()
    }

    /// A table with the given policies and no history.
    pub fn new(idle: RestartPolicy, app_task: RestartPolicy) -> (r: Self)
        requires
            idle.wf(),
            app_task.wf(),
        ensures
            r.wf(),
            r@[0].spec_policy() == idle,
            r@[1].spec_policy() == app_task,
            r@[0].count() == 0 && r@[0].times() == Seq::<u64>::empty(),
            r@[1].count() == 0 && r@[1].times() == Seq::<u64>::empty(),
    {
        let mut entries: Vec<RestartEntry> = Vec::new();
        entries.push(RestartEntry::new(idle));
        entries.push(RestartEntry::new(app_task));
        RestartTable { entries }
    }

    /// The table that the kernel starts with: nothing is restarted.
    pub fn default_table() -> (r: Self)
        ensures
            r.wf(),
            r@[0].spec_policy() is Never,
            r@[1].spec_policy() is Never,
            r@[0].count() == 0 && r@[0].times() == Seq::<u64>::empty(),
            r@[1].count() == 0 && r@[1].times() == Seq::<u64>::empty(),
    {
        RestartTable::new(RestartPolicy::Never, RestartPolicy::Never)
    }
}

/// Whether the entry point `id`, whose task ended at `now`, is to be started
/// again; if so, the restart is counted in `table`.
pub fn should_restart(table: &mut RestartTable, id: EntryPointId, now: u64) -> (r: bool)
    requires
        old(table).wf(),
    ensures
        final(table).wf(),
        r == old(table)@[entry_index(id)].permits(now),
        old(table)@[entry_index(id)].looked_at(now, final(table)@[entry_index(id)]),
        forall|i: int|
            0 <= i < 2 && i != entry_index(id) ==> #[trigger] final(table)@[i] == old(table)@[i],
{
    let idx: usize = match id {
        EntryPointId::Idle => 0,
        EntryPointId::AppTask => 1,
    };
    table.entries[idx].may_restart(now)
}

/// Whether a restart at `t` still counts at `now`: less than the window has passed
/// since, in whole microseconds, or the window is too short to have an end.
pub open spec fn still_counts(t: u64, now: u64, window: Duration) -> bool {
    window@ < 1_000 || (now - t + 1) * 1_000 <= window@
}

/// An entry point is restarted exactly if its policy allows more restarts than there are
/// that still count.
pub proof fn lemma_restart_rule(entry: RestartEntry, now: u64)
    requires
        entry.wf(),
    ensures
        entry.permits(now) <==> (match entry.spec_policy() {
            RestartPolicy::Never => false,
            RestartPolicy::Always => true,
            RestartPolicy::MaxN { count, window } => entry.times().filter(
                |t: u64| still_counts(t, now, window),
            ).len() < count,
        }),
{
    if let RestartPolicy::MaxN { count, window } = entry.spec_policy() {
        lemma_recent_is_filter(entry.times(), now, window);
    }
}

/// The restarts in the window are those that still count.
proof fn lemma_recent_is_filter(times: Seq<u64>, now: u64, window: Duration)
    ensures
        recent_count(times, now, window_micros(window)) == times.filter(
            |t: u64| still_counts(t, now, window),
        ).len(),
    decreases times.len(),
{
    reveal(Seq::filter);
    if times.len() > 0 {
        lemma_recent_is_filter(times.drop_last(), now, window);
        let t = times.last();
        assert(recent(t, now, window_micros(window)) == still_counts(t, now, window));
    }
}

/// A restart stops counting once the window has passed since: if that holds of all
/// restarts so far and the policy allows any, a death is followed by a restart.
pub proof fn lemma_restarts_expire(entry: RestartEntry, count: u32, window: Duration, now: u64)
    requires
        entry.wf(),
        entry.spec_policy() == (RestartPolicy::MaxN { count, window }),
        count > 0,
        window@ >= 1_000,
        forall|i: int|
            0 <= i < entry.times().len() ==> (now - #[trigger] entry.times()[i]) * 1_000 >= window@,
    ensures
        entry.permits(now),
{
    let micros = window_micros(window);
    let times = entry.times();
    assert forall|i: int| 0 <= i < times.len() implies !recent(#[trigger] times[i], now, micros) by {
        assert((now - times[i]) * 1_000 >= window@);
    }
    lemma_none_recent(times, now, micros);
}

/// If as many restarts as the policy allows lie less than the window before a death, the
/// death is not followed by a restart.
pub proof fn lemma_restarts_exhaust(entry: RestartEntry, count: u32, window: Duration, now: u64)
    requires
        entry.wf(),
        entry.spec_policy() == (RestartPolicy::MaxN { count, window }),
        entry.times().len() >= count,
        forall|i: int|
            0 <= i < entry.times().len() ==> (now - #[trigger] entry.times()[i] + 1) * 1_000
                <= window@,
    ensures
        !entry.permits(now),
{
    let micros = window_micros(window);
    let times = entry.times();
    assert forall|i: int| 0 <= i < times.len() implies recent(#[trigger] times[i], now, micros) by {
        assert((now - times[i] + 1) * 1_000 <= window@);
    }
    lemma_recent_tail(times, now, micros, times.len() as int);
}

/// What is kept of a death: nothing if it is not followed by a restart. Otherwise the
/// restart is counted, and with a limited policy it is the last of the restarts that are
/// kept; the oldest is dropped if there are more than the policy allows.
pub proof fn lemma_restart_is_kept(before: RestartEntry, now: u64, after: RestartEntry)
    requires
        before.wf(),
        before.looked_at(now, after),
    ensures
        after.spec_policy() == before.spec_policy(),
        !before.permits(now) ==> after.times() == before.times() && after.count() == before.count(),
        before.permits(now) && before.count() < u32::MAX ==> after.count() == before.count() + 1,
        before.permits(now) ==> (before.spec_policy() matches RestartPolicy::MaxN { count, .. } ==> {
            &&& after.times().len() > 0
            &&& after.times().last() == now
            &&& before.times().len() < count ==> after.times() == before.times().push(now)
            &&& before.times().len() == count ==> after.times() == before.times().drop_first().push(
                now,
            )
        }),
{
    if before.permits(now) {
        if let RestartPolicy::MaxN { count, window } = before.spec_policy() {
            lemma_recent_tail(before.times(), now, window_micros(window), 0);
            if before.times().len() == count {
                assert(after.times() =~= before.times().drop_first().push(now));
            }
        }
    }
}

/// Each entry point has an entry of its own in the table.
pub proof fn lemma_own_entries(a: EntryPointId, b: EntryPointId)
    ensures
        0 <= entry_index(a) < 2,
        entry_index(a) == entry_index(b) ==> a == b,
        entry_index(EntryPointId::Idle) == 0,
{
}

/// Whether an entry point is restarted when it dies: exactly if fewer restarts still count than
/// the policy allows. A restart that is granted is kept with its time, and what was decided
/// before stays among what is kept.
pub proof fn lemma_may_restart_result(e: &mut RestartEntry, now: u64, r: bool)
    requires
        old(e).wf(),
        call_ensures(RestartEntry::may_restart, (e, now), r),
    ensures
        old(e).spec_policy() is Never ==> !r,
        old(e).spec_policy() is Always ==> r,
        old(e).spec_policy() matches RestartPolicy::MaxN { count, window } ==> (r <==> old(
            e,
        ).times().filter(|t: u64| still_counts(t, now, window)).len() < count),
        final(e).spec_policy() == old(e).spec_policy(),
        !r ==> final(e).times() == old(e).times() && final(e).count() == old(e).count(),
        r && old(e).count() < u32::MAX ==> final(e).count() == old(e).count() + 1,
{
    lemma_restart_rule(*old(e), now);
}

} // verus!
