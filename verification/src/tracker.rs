//! Per-entity sliding-window activity tracking: spam detection per user and
//! randomized conversational engagement per scope (guild).
//!
//! All timestamps are caller-supplied milliseconds, which keeps the clock
//! injectable and the behaviour deterministic under test. Retention is lazy:
//! a key's window is pruned when that key is touched, never by a sweep.

use vstd::prelude::*;
use vstd::wrapping::u64_specs;
use dashmap::DashMap;
use crate::store::activity_map_contents;
use crate::store::activity_map_get;
use crate::store::activity_map_insert;
use crate::store::activity_map_new;
use crate::store::activity_map_remove;
use crate::store::cooldown_map_contents;
use crate::store::cooldown_map_get;
use crate::store::cooldown_map_insert;
use crate::store::cooldown_map_new;
use crate::store::cooldown_map_remove;
use crate::store::spam_map_contents;
use crate::store::spam_map_get;
use crate::store::spam_map_insert;
use crate::store::spam_map_new;
use crate::store::spam_map_remove;

verus! {

/// Fixed-at-construction tuning for an `ActivityTracker`.
#[derive(Clone, Copy)]
pub struct TrackerConfig {
    /// How far back a user's messages count towards the spam threshold.
    pub spam_window_ms: u64,
    /// A user is spamming when strictly more than this many messages fall in
    /// the spam window.
    pub spam_threshold: usize,
    /// How long a scope's activity entries are kept for bookkeeping.
    pub chat_window_ms: u64,
    /// The sub-window over which "is the chat active" is judged.
    pub chat_active_window_ms: u64,
    /// Minimum messages in the active window for the chat to count as active.
    pub chat_min_messages: usize,
    /// Minimum distinct users in the active window for the chat to count as
    /// active.
    pub chat_min_users: usize,
    /// Minimum quiet time after a trigger before the same scope may trigger
    /// again.
    pub chat_cooldown_ms: u64,
    /// Trigger probability as a fraction of the full `u64` range: the
    /// engagement draw fires when the mixed value is strictly below this.
    pub chat_trigger_threshold: u64,
}

/// The tuning the tracker is built with by default.
pub open spec fn default_config() -> TrackerConfig {
    TrackerConfig {
        spam_window_ms: 10_000,
        spam_threshold: 20,
        chat_window_ms: 30_000,
        chat_active_window_ms: 20_000,
        chat_min_messages: 6,
        chat_min_users: 3,
        chat_cooldown_ms: 45_000,
        chat_trigger_threshold: (u64::MAX / 100 * 35) as u64,
    }
}

impl Default for TrackerConfig {
    fn default() -> (c: TrackerConfig)
        ensures
            c == default_config(),
    {
        TrackerConfig {
            spam_window_ms: 10_000,
            spam_threshold: 20,
            chat_window_ms: 30_000,
            chat_active_window_ms: 20_000,
            chat_min_messages: 6,
            chat_min_users: 3,
            chat_cooldown_ms: 45_000,
            chat_trigger_threshold: u64::MAX / 100 * 35,
        }
    }
}

/// Sliding-window activity tracker. One long-lived instance serves the whole
/// process; independent instances in tests share nothing.
pub struct ActivityTracker {
    cfg: TrackerConfig,
    spam: DashMap<u64, Vec<u64>>,
    activity: DashMap<u64, Vec<(u64, u64)>>,
    cooldowns: DashMap<u64, u64>,
}

/// The engagement decision is gated by a deterministic mixer over the call's
/// inputs: a SplitMix-style multiply-xor-shift finalizer. Determinism is a
/// feature: identical `(timestamp, scope, user)` inputs always give the
/// identical go/no-go decision.
pub open spec fn chat_rand(ts: u64, scope_id: u64, user_id: u64) -> u64 {
    let seed = u64_specs::wrapping_mul(ts ^ scope_id ^ user_id, 0x5851_f42d_4c95_7f2d);
    let h = u64_specs::wrapping_mul(
        u64_specs::wrapping_add(seed, seed >> 33),
        0xc4ce_b9fe_1a85_ec53,
    );
    u64_specs::wrapping_mul(u64_specs::wrapping_add(h, h >> 29), 0x94d0_49bb_1331_11eb)
}

/// Executable form of the engagement mixer; uniform enough over `u64` for a
/// cosmetic trigger, and in no way cryptographically secure.
pub fn rand_simple(ts: u64, scope_id: u64, user_id: u64) -> (r: u64)
    ensures
        r == chat_rand(ts, scope_id, user_id),
{
    let seed = (ts ^ scope_id ^ user_id).wrapping_mul(0x5851_f42d_4c95_7f2d);
    let h = seed.wrapping_add(seed >> 33).wrapping_mul(0xc4ce_b9fe_1a85_ec53);
    h.wrapping_add(h >> 29).wrapping_mul(0x94d0_49bb_1331_11eb)
}

/// Whether a message at `ts` still counts at time `now` for a window of
/// `window` milliseconds: it does exactly when `ts > now - window`.
pub open spec fn in_spam_window(ts: u64, now: u64, window: u64) -> bool {
    ts as int > now as int - window as int
}

/// The retention predicate of the spam window, as a single function value so
/// that every filter over it is the same filter.
pub open spec fn spam_keep(now: u64, window: u64) -> spec_fn(u64) -> bool {
    |ts: u64| in_spam_window(ts, now, window)
}

/// A user's timestamps after pruning everything that fell out of the window.
pub open spec fn pruned_spam(s: Seq<u64>, now: u64, window: u64) -> Seq<u64> {
    s.filter(spam_keep(now, window))
}

/// The sequence a map holds under a key, or the empty sequence for a key
/// that was never seen: a missing key and an empty history behave alike.
pub open spec fn seq_at<T>(m: Map<u64, Seq<T>>, k: u64) -> Seq<T> {
    if m.contains_key(k) {
        m[k]
    } else {
        Seq::empty()
    }
}

/// The value a map holds under a key, if any.
pub open spec fn opt_at(m: Map<u64, u64>, k: u64) -> Option<u64> {
    if m.contains_key(k) {
        Some(m[k])
    } else {
        None
    }
}

/// Whether an activity entry `(timestamp, user)` still lies within `window`
/// of `now`: it does exactly when `timestamp >= now - window`.
pub open spec fn entry_in_window(e: (u64, u64), now: u64, window: u64) -> bool {
    e.0 as int >= now as int - window as int
}

/// The retention predicate of an activity window, as a single function value
/// so that every filter over it is the same filter.
pub open spec fn activity_keep(now: u64, window: u64) -> spec_fn((u64, u64)) -> bool {
    |e: (u64, u64)| entry_in_window(e, now, window)
}

/// A scope's history after dropping its stale prefix: entries are removed
/// from the front while the front has fallen out of the bookkeeping window.
pub open spec fn trimmed(s: Seq<(u64, u64)>, now: u64, window: u64) -> Seq<(u64, u64)>
    decreases s.len(),
{
    if s.len() > 0 && !entry_in_window(s[0], now, window) {
        trimmed(s.drop_first(), now, window)
    } else {
        s
    }
}

/// What a scope's history becomes when a message from `user_id` arrives at
/// `now`: the entry is appended, then the stale prefix is dropped.
pub open spec fn updated_history(hist: Seq<(u64, u64)>, user_id: u64, now: u64, window: u64) -> Seq<
    (u64, u64),
> {
    trimmed(hist.push((now, user_id)), now, window)
}

/// The entries of a history that fall in the active sub-window.
pub open spec fn active_entries(s: Seq<(u64, u64)>, now: u64, active_window: u64) -> Seq<
    (u64, u64),
> {
    s.filter(activity_keep(now, active_window))
}

/// The user id of an activity entry, as a single function value.
pub open spec fn entry_user() -> spec_fn((u64, u64)) -> u64 {
    |e: (u64, u64)| e.1
}

/// The distinct users among the entries in the active sub-window.
pub open spec fn active_users(s: Seq<(u64, u64)>, now: u64, active_window: u64) -> Set<u64> {
    active_entries(s, now, active_window).map_values(entry_user()).to_set()
}

/// Whether a scope's cooldown blocks a trigger at `now`: it does exactly
/// when a trigger fired less than `cooldown` milliseconds ago.
pub open spec fn cooldown_blocks(last: Option<u64>, now: u64, cooldown: u64) -> bool {
    match last {
        Some(t) => (now as int - t as int) < (cooldown as int),
        None => false,
    }
}

/// The engagement decision over a scope's already-updated history: the chat
/// must be active enough, the scope must be out of cooldown, and the
/// deterministic draw must fall below the trigger threshold.
pub open spec fn chat_would_trigger(
    cfg: TrackerConfig,
    hist: Seq<(u64, u64)>,
    last: Option<u64>,
    now: u64,
    scope_id: u64,
    user_id: u64,
) -> bool {
    &&& active_entries(hist, now, cfg.chat_active_window_ms).len() >= cfg.chat_min_messages
    &&& active_users(hist, now, cfg.chat_active_window_ms).len() >= cfg.chat_min_users
    &&& !cooldown_blocks(last, now, cfg.chat_cooldown_ms)
    &&& chat_rand(now, scope_id, user_id) < cfg.chat_trigger_threshold
}

/// Whether a vector of user ids holds the given id.
fn contains_u64(v: &Vec<u64>, x: u64) -> (r: bool)
    ensures
        r == v@.contains(x),
{
    let mut i: usize = 0;
    while i < v.len()
        invariant
            i <= v.len(),
            forall|j: int| 0 <= j < i as int ==> v@[j] != x,
        decreases v.len() - i,
    {
        if v[i] == x {
            return true;
        }
        i += 1;
    }
    false
}

/// Filtering a sequence extended by one element keeps the old filtrate and
/// appends the element exactly when it satisfies the predicate.
pub proof fn lemma_filter_push<A>(s: Seq<A>, x: A, pred: spec_fn(A) -> bool)
    ensures
        s.push(x).filter(pred) == if pred(x) {
            s.filter(pred).push(x)
        } else {
            s.filter(pred)
        },
{
    reveal(Seq::filter);
    assert(s.push(x).drop_last() =~= s);
    assert(s.push(x).last() == x);
}

/// Filtering by a stronger predicate absorbs an earlier filter by a weaker
/// one.
pub proof fn lemma_filter_subsumed<A>(s: Seq<A>, p: spec_fn(A) -> bool, q: spec_fn(A) -> bool)
    requires
        forall|x: A| #[trigger] q(x) ==> p(x),
    ensures
        s.filter(p).filter(q) == s.filter(q),
    decreases s.len(),
{
    reveal(Seq::filter);
    if s.len() == 0 {
        assert(s.filter(p) =~= s);
    } else {
        let rest = s.drop_last();
        lemma_filter_subsumed(rest, p, q);
        lemma_filter_push(rest.filter(p), s.last(), q);
        assert(s =~= rest.push(s.last()));
        lemma_filter_push(rest, s.last(), p);
        lemma_filter_push(rest, s.last(), q);
    }
}

/// A sequence is ordered oldest-first.
pub open spec fn sorted_nondecreasing(s: Seq<u64>) -> bool {
    forall|i: int, j: int| 0 <= i <= j < s.len() ==> s[i] <= s[j]
}

/// The timestamps a user's spam record retains after a run of `check_spam`
/// calls at the given times, starting from no record: exactly the per-call
/// `ensures` of `check_spam`, folded over the run.
pub open spec fn spam_run(times: Seq<u64>, window: u64) -> Seq<u64>
    decreases times.len(),
{
    if times.len() == 0 {
        Seq::empty()
    } else {
        pruned_spam(spam_run(times.drop_last(), window), times.last(), window).push(times.last())
    }
}

/// For a run of `check_spam` calls for one user at nondecreasing times, the
/// record retained after the last call holds exactly the call times that
/// still lie in the spam window of the last call — so the reported count at
/// every step equals the number of earlier calls within the window of that
/// step, and `is_spam` is true exactly when that count exceeds the
/// threshold.
pub proof fn lemma_spam_count_sliding_window(times: Seq<u64>, window: u64)
    requires
        window >= 1,
        sorted_nondecreasing(times),
        times.len() > 0,
    ensures
        spam_run(times, window) == times.filter(spam_keep(times.last(), window)),
    decreases times.len(),
{
    let last = times.last();
    let prev = times.drop_last();
    assert(spam_keep(last, window)(last));
    assert(times =~= prev.push(last));
    if times.len() == 1 {
        reveal(Seq::filter);
        assert(prev =~= Seq::<u64>::empty());
        assert(spam_run(prev, window) == Seq::<u64>::empty());
        assert(prev.filter(spam_keep(last, window)) =~= Seq::<u64>::empty());
        assert(pruned_spam(spam_run(prev, window), last, window) =~= Seq::<u64>::empty());
        lemma_filter_push(prev, last, spam_keep(last, window));
        assert(spam_run(times, window) == times.filter(spam_keep(last, window)));
    } else {
        let prev_last = prev.last();
        assert(forall|i: int| 0 <= i < prev.len() ==> prev[i] == times[i]);
        assert(sorted_nondecreasing(prev));
        assert(prev_last == times[times.len() - 2]);
        assert(prev_last <= last);
        lemma_spam_count_sliding_window(prev, window);
        assert(forall|x: u64| #[trigger] spam_keep(last, window)(x) ==> spam_keep(
            prev_last,
            window,
        )(x));
        lemma_filter_subsumed(prev, spam_keep(prev_last, window), spam_keep(last, window));
        assert(pruned_spam(spam_run(prev, window), last, window) == prev.filter(
            spam_keep(last, window),
        ));
        lemma_filter_push(prev, last, spam_keep(last, window));
        assert(spam_run(times, window) == times.filter(spam_keep(last, window)));
    }
}

/// Interleaved `check_spam` calls for distinct users never touch each
/// other's records: an update under one key leaves every other key's
/// retained history exactly as it was.
pub proof fn lemma_spam_users_independent(
    m: Map<u64, Seq<u64>>,
    user_id: u64,
    other: u64,
    s: Seq<u64>,
)
    requires
        user_id != other,
    ensures
        seq_at(m.insert(user_id, s), other) == seq_at(m, other),
{
}

/// A scope whose active sub-window is too quiet — too few messages or too
/// few distinct users — never triggers, whatever the draw says.
pub proof fn lemma_quiet_scope_never_triggers(
    cfg: TrackerConfig,
    hist: Seq<(u64, u64)>,
    last: Option<u64>,
    now: u64,
    scope_id: u64,
    user_id: u64,
)
    requires
        active_entries(hist, now, cfg.chat_active_window_ms).len() < cfg.chat_min_messages
            || active_users(hist, now, cfg.chat_active_window_ms).len() < cfg.chat_min_users,
    ensures
        !chat_would_trigger(cfg, hist, last, now, scope_id, user_id),
{
}

/// Once a trigger has fired for a scope, no call within the cooldown window
/// can trigger again for that scope, even when the thresholds are met and
/// the draw would pass.
pub proof fn lemma_cooldown_blocks_trigger(
    cfg: TrackerConfig,
    hist: Seq<(u64, u64)>,
    fired_at: u64,
    now: u64,
    scope_id: u64,
    user_id: u64,
)
    requires
        (now as int - fired_at as int) < (cfg.chat_cooldown_ms as int),
    ensures
        !chat_would_trigger(cfg, hist, Some(fired_at), now, scope_id, user_id),
{
}

/// After `clear_user`, the user's spam record reads as if the user had
/// never been seen: the next `check_spam` starts from the empty history.
pub proof fn lemma_cleared_user_fresh(m: Map<u64, Seq<u64>>, user_id: u64)
    ensures
        seq_at(m.remove(user_id), user_id) == Seq::<u64>::empty(),
        seq_at(m.remove(user_id), user_id) == seq_at(Map::<u64, Seq<u64>>::empty(), user_id),
{
}

/// After `clear_guild`, the scope's activity history and cooldown read as
/// if the scope had never been seen: the next `record_chat_activity` starts
/// from the empty history with no cooldown.
pub proof fn lemma_cleared_guild_fresh(
    activity: Map<u64, Seq<(u64, u64)>>,
    cooldowns: Map<u64, u64>,
    scope_id: u64,
)
    ensures
        seq_at(activity.remove(scope_id), scope_id) == Seq::<(u64, u64)>::empty(),
        seq_at(activity.remove(scope_id), scope_id) == seq_at(
            Map::<u64, Seq<(u64, u64)>>::empty(),
            scope_id,
        ),
        opt_at(cooldowns.remove(scope_id), scope_id) is None,
{
}

/// Activity entries are ordered oldest-first by timestamp.
pub open spec fn entries_time_ordered(s: Seq<(u64, u64)>) -> bool {
    forall|i: int, j: int| 0 <= i <= j < s.len() ==> (#[trigger] s[i]).0 <= (#[trigger] s[j]).0
}

/// Every timestamp a pruned spam record retains lies within the spam
/// window of the access that pruned it.
pub proof fn lemma_spam_retained_within_window(s: Seq<u64>, now: u64, window: u64)
    ensures
        forall|i: int|
            0 <= i < pruned_spam(s, now, window).len() ==> in_spam_window(
                #[trigger] pruned_spam(s, now, window)[i],
                now,
                window,
            ),
{
    broadcast use vstd::seq_lib::group_filter_ensures;

    assert forall|i: int| 0 <= i < pruned_spam(s, now, window).len() implies in_spam_window(
        pruned_spam(s, now, window)[i],
        now,
        window,
    ) by {
        assert(spam_keep(now, window)(s.filter(spam_keep(now, window))[i]));
    }
}

/// Trimming a time-ordered history keeps it time-ordered, and leaves only
/// entries inside the bookkeeping window.
pub proof fn lemma_trimmed_within_window(s: Seq<(u64, u64)>, now: u64, window: u64)
    requires
        entries_time_ordered(s),
    ensures
        entries_time_ordered(trimmed(s, now, window)),
        forall|i: int|
            0 <= i < trimmed(s, now, window).len() ==> entry_in_window(
                #[trigger] trimmed(s, now, window)[i],
                now,
                window,
            ),
    decreases s.len(),
{
    if s.len() > 0 && !entry_in_window(s[0], now, window) {
        let rest = s.drop_first();
        assert(forall|i: int| 0 <= i < rest.len() ==> rest[i] == s[i + 1]);
        assert(entries_time_ordered(rest));
        lemma_trimmed_within_window(rest, now, window);
    } else if s.len() > 0 {
        assert(forall|i: int| 0 <= i < s.len() ==> s[0].0 <= (#[trigger] s[i]).0);
    }
}

/// The history a scope retains stays time-ordered: insertion is append-only
/// at the back with the newest timestamp, and pruning removes only from the
/// front. Every retained entry lies within the bookkeeping window of the
/// access that pruned it.
pub proof fn lemma_history_time_ordered(hist: Seq<(u64, u64)>, user_id: u64, now: u64, window: u64)
    requires
        entries_time_ordered(hist),
        forall|i: int| 0 <= i < hist.len() ==> (#[trigger] hist[i]).0 <= now,
    ensures
        entries_time_ordered(updated_history(hist, user_id, now, window)),
        forall|i: int|
            0 <= i < updated_history(hist, user_id, now, window).len() ==> entry_in_window(
                #[trigger] updated_history(hist, user_id, now, window)[i],
                now,
                window,
            ),
{
    let appended = hist.push((now, user_id));
    assert(forall|i: int| 0 <= i < hist.len() ==> appended[i] == hist[i]);
    assert(appended[hist.len() as int] == (now, user_id));
    assert(entries_time_ordered(appended));
    lemma_trimmed_within_window(appended, now, window);
}

impl ActivityTracker {
    /// The tuning, fixed at construction.
    pub closed spec fn config(self) -> TrackerConfig {
        self.cfg
    }

    /// The per-user spam histories, as a mathematical map.
    pub closed spec fn spam_history(self) -> Map<u64, Seq<u64>> {
        spam_map_contents(self.spam)
    }

    /// The per-scope activity histories; each entry is `(timestamp, user id)`.
    pub closed spec fn activity_history(self) -> Map<u64, Seq<(u64, u64)>> {
        activity_map_contents(self.activity)
    }

    /// The per-scope last-trigger timestamps.
    pub closed spec fn cooldown_stamps(self) -> Map<u64, u64> {
        cooldown_map_contents(self.cooldowns)
    }

    /// A tracker with the given tuning and no history at all.
    pub fn with_config(cfg: TrackerConfig) -> (t: ActivityTracker)
        ensures
            t.config() == cfg,
            t.spam_history() == Map::<u64, Seq<u64>>::empty(),
            t.activity_history() == Map::<u64, Seq<(u64, u64)>>::empty(),
            t.cooldown_stamps() == Map::<u64, u64>::empty(),
    {
        let t = ActivityTracker {
            cfg,
            spam: spam_map_new(),
            activity: activity_map_new(),
            cooldowns: cooldown_map_new(),
        };
        proof {
            assert(t.spam_history().dom() =~= Set::<u64>::empty());
            assert(t.spam_history() =~= Map::<u64, Seq<u64>>::empty());
            assert(t.activity_history().dom() =~= Set::<u64>::empty());
            assert(t.activity_history() =~= Map::<u64, Seq<(u64, u64)>>::empty());
            assert(t.cooldown_stamps().dom() =~= Set::<u64>::empty());
            assert(t.cooldown_stamps() =~= Map::<u64, u64>::empty());
        }
        t
    }

    /// A tracker with the default tuning and no history at all.
    pub fn new() -> (t: ActivityTracker)
        ensures
            t.config() == default_config(),
            t.spam_history() == Map::<u64, Seq<u64>>::empty(),
            t.activity_history() == Map::<u64, Seq<(u64, u64)>>::empty(),
            t.cooldown_stamps() == Map::<u64, u64>::empty(),
    {
        Self::with_config(TrackerConfig::default())
    }

    /// Record one message from `user_id` at `now` and judge it: prune the
    /// user's timestamps to the spam window, append `now`, and report whether
    /// the retained count strictly exceeds the threshold, together with that
    /// count. Only this user's record changes.
    pub fn check_spam(&mut self, user_id: u64, now: u64) -> (r: (bool, usize))
        ensures
            final(self).config() == old(self).config(),
            final(self).activity_history() == old(self).activity_history(),
            final(self).cooldown_stamps() == old(self).cooldown_stamps(),
            final(self).spam_history() == old(self).spam_history().insert(
                user_id,
                pruned_spam(
                    seq_at(old(self).spam_history(), user_id),
                    now,
                    old(self).config().spam_window_ms,
                ).push(now),
            ),
            r.1 == pruned_spam(
                seq_at(old(self).spam_history(), user_id),
                now,
                old(self).config().spam_window_ms,
            ).len() + 1,
            r.0 == (r.1 > old(self).config().spam_threshold),
    {
        let w = self.cfg.spam_window_ms;
        let prev: Vec<u64> = match spam_map_get(&self.spam, user_id) {
            Some(v) => v,
            None => Vec::new(),
        };
        let ghost prev_seq = prev@;
        proof {
            assert(prev_seq == seq_at(spam_map_contents(self.spam), user_id));
        }
        let mut kept: Vec<u64> = Vec::new();
        let mut i: usize = 0;
        while i < prev.len()
            invariant
                i <= prev.len(),
                prev@ == prev_seq,
                kept@ == pruned_spam(prev_seq.subrange(0, i as int), now, w),
            decreases prev.len() - i,
        {
            let ts = prev[i];
            let keep = if now >= w {
                ts > now - w
            } else {
                true
            };
            proof {
                assert(keep == spam_keep(now, w)(ts));
                assert(prev_seq.subrange(0, i as int + 1) =~= prev_seq.subrange(
                    0,
                    i as int,
                ).push(ts));
                lemma_filter_push(prev_seq.subrange(0, i as int), ts, spam_keep(now, w));
            }
            if keep {
                kept.push(ts);
            }
            i += 1;
        }
        proof {
            assert(prev_seq.subrange(0, prev_seq.len() as int) =~= prev_seq);
        }
        kept.push(now);
        let count = kept.len();
        spam_map_insert(&mut self.spam, user_id, kept);
        let is_spam = count > self.cfg.spam_threshold;
        (is_spam, count)
    }

    /// Record one message from `user_id` in `scope_id` at `now` and decide
    /// whether to jump into the conversation: append the entry, drop the
    /// stale prefix of the scope's history, and trigger exactly when the
    /// active sub-window is busy enough, the scope is out of cooldown, and
    /// the deterministic draw falls below the trigger threshold. A trigger
    /// records `now` as the scope's new cooldown stamp; nothing else touches
    /// the cooldown.
    pub fn record_chat_activity(&mut self, scope_id: u64, user_id: u64, now: u64) -> (r: bool)
        ensures
            final(self).config() == old(self).config(),
            final(self).spam_history() == old(self).spam_history(),
            final(self).activity_history() == old(self).activity_history().insert(
                scope_id,
                updated_history(
                    seq_at(old(self).activity_history(), scope_id),
                    user_id,
                    now,
                    old(self).config().chat_window_ms,
                ),
            ),
            r == chat_would_trigger(
                old(self).config(),
                updated_history(
                    seq_at(old(self).activity_history(), scope_id),
                    user_id,
                    now,
                    old(self).config().chat_window_ms,
                ),
                opt_at(old(self).cooldown_stamps(), scope_id),
                now,
                scope_id,
                user_id,
            ),
            r ==> final(self).cooldown_stamps() == old(self).cooldown_stamps().insert(
                scope_id,
                now,
            ),
            !r ==> final(self).cooldown_stamps() == old(self).cooldown_stamps(),
    {
        let w = self.cfg.chat_window_ms;
        let aw = self.cfg.chat_active_window_ms;
        let mut hist: Vec<(u64, u64)> = match activity_map_get(&self.activity, scope_id) {
            Some(v) => v,
            None => Vec::new(),
        };
        proof {
            assert(hist@ == seq_at(activity_map_contents(self.activity), scope_id));
        }
        hist.push((now, user_id));
        let ghost appended = hist@;
        while hist.len() > 0 && now >= w && hist[0].0 < now - w
            invariant
                trimmed(hist@, now, w) == trimmed(appended, now, w),
            decreases hist.len(),
        {
            proof {
                assert(!entry_in_window(hist@[0], now, w));
                assert(hist@.remove(0) =~= hist@.drop_first());
            }
            hist.remove(0);
        }
        proof {
            assert(hist@.len() > 0 ==> entry_in_window(hist@[0], now, w));
            assert(trimmed(hist@, now, w) == hist@);
        }
        let ghost new_hist = hist@;
        let mut active_count: usize = 0;
        let mut seen: Vec<u64> = Vec::new();
        let mut i: usize = 0;
        while i < hist.len()
            invariant
                i <= hist.len(),
                hist@ == new_hist,
                active_count <= i,
                active_count == active_entries(new_hist.subrange(0, i as int), now, aw).len(),
                seen@.no_duplicates(),
                seen@.to_set() == active_users(new_hist.subrange(0, i as int), now, aw),
            decreases hist.len() - i,
        {
            let e = hist[i];
            let is_active = if now >= aw {
                e.0 >= now - aw
            } else {
                true
            };
            proof {
                assert(is_active == activity_keep(now, aw)(e));
                assert(new_hist.subrange(0, i as int + 1) =~= new_hist.subrange(
                    0,
                    i as int,
                ).push(e));
                lemma_filter_push(new_hist.subrange(0, i as int), e, activity_keep(now, aw));
            }
            if is_active {
                active_count += 1;
                let uid = e.1;
                let already = contains_u64(&seen, uid);
                proof {
                    let act = active_entries(new_hist.subrange(0, i as int), now, aw);
                    let users = act.map_values(entry_user());
                    assert(act.push(e).map_values(entry_user()) =~= users.push(uid));
                    assert(users.push(uid) =~= users + seq![uid]);
                    Seq::<u64>::lemma_to_set_insert_commutes(users, uid);
                    if already {
                        assert(seen@.to_set().insert(uid) =~= seen@.to_set());
                    } else {
                        assert(seen@.push(uid) =~= seen@ + seq![uid]);
                        Seq::<u64>::lemma_to_set_insert_commutes(seen@, uid);
                        assert(forall|j: int|
                            0 <= j < seen@.len() ==> seen@.push(uid)[j] == seen@[j]);
                        assert(seen@.push(uid)[seen@.len() as int] == uid);
                        assert(seen@.push(uid).no_duplicates());
                    }
                }
                if !already {
                    seen.push(uid);
                }
            }
            i += 1;
        }
        proof {
            assert(new_hist.subrange(0, new_hist.len() as int) =~= new_hist);
            seen@.unique_seq_to_set();
        }
        let users = seen.len();
        activity_map_insert(&mut self.activity, scope_id, hist);
        if active_count < self.cfg.chat_min_messages || users < self.cfg.chat_min_users {
            return false;
        }
        let cd = self.cfg.chat_cooldown_ms;
        let blocked = match cooldown_map_get(&self.cooldowns, scope_id) {
            Some(t) => t > now || now - t < cd,
            None => false,
        };
        if blocked {
            return false;
        }
        let rv = rand_simple(now, scope_id, user_id);
        if rv < self.cfg.chat_trigger_threshold {
            cooldown_map_insert(&mut self.cooldowns, scope_id, now);
            true
        } else {
            false
        }
    }

    /// Forget everything tracked for a user; idempotent, a no-op for a user
    /// never seen.
    pub fn clear_user(&mut self, user_id: u64)
        ensures
            final(self).config() == old(self).config(),
            final(self).spam_history() == old(self).spam_history().remove(user_id),
            final(self).activity_history() == old(self).activity_history(),
            final(self).cooldown_stamps() == old(self).cooldown_stamps(),
    {
        spam_map_remove(&mut self.spam, user_id);
    }

    /// Forget everything tracked for a scope, activity and cooldown alike;
    /// idempotent, a no-op for a scope never seen.
    pub fn clear_guild(&mut self, scope_id: u64)
        ensures
            final(self).config() == old(self).config(),
            final(self).spam_history() == old(self).spam_history(),
            final(self).activity_history() == old(self).activity_history().remove(scope_id),
            final(self).cooldown_stamps() == old(self).cooldown_stamps().remove(scope_id),
    {
        activity_map_remove(&mut self.activity, scope_id);
        cooldown_map_remove(&mut self.cooldowns, scope_id);
    }
}

} // verus!
