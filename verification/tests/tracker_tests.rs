use chat_core::tracker::rand_simple;
use chat_core::tracker::ActivityTracker;
use chat_core::tracker::TrackerConfig;

fn small_config() -> TrackerConfig {
    TrackerConfig {
        spam_window_ms: 10_000,
        spam_threshold: 3,
        chat_window_ms: 30_000,
        chat_active_window_ms: 20_000,
        chat_min_messages: 2,
        chat_min_users: 2,
        chat_cooldown_ms: 45_000,
        chat_trigger_threshold: u64::MAX,
    }
}

#[test]
fn spam_counts_follow_the_sliding_window() {
    let mut t = ActivityTracker::with_config(small_config());
    assert_eq!(t.check_spam(7, 0), (false, 1));
    assert_eq!(t.check_spam(7, 5_000), (false, 2));
    assert_eq!(t.check_spam(7, 9_000), (false, 3));
    // At 20_000 everything at or before 10_000 has left the window.
    assert_eq!(t.check_spam(7, 20_000), (false, 1));
}

#[test]
fn spam_flag_raised_above_threshold() {
    let mut t = ActivityTracker::with_config(small_config());
    assert_eq!(t.check_spam(1, 100), (false, 1));
    assert_eq!(t.check_spam(1, 200), (false, 2));
    assert_eq!(t.check_spam(1, 300), (false, 3));
    assert_eq!(t.check_spam(1, 400), (true, 4));
}

#[test]
fn spam_window_boundary_is_strict() {
    let mut t = ActivityTracker::with_config(small_config());
    assert_eq!(t.check_spam(5, 1_000), (false, 1));
    // Cutoff is now - window = 1_000: an entry exactly at the cutoff drops.
    assert_eq!(t.check_spam(5, 11_000), (false, 1));
}

#[test]
fn spam_counts_of_distinct_users_are_independent() {
    let mut t = ActivityTracker::with_config(small_config());
    assert_eq!(t.check_spam(1, 0), (false, 1));
    assert_eq!(t.check_spam(2, 10), (false, 1));
    assert_eq!(t.check_spam(1, 20), (false, 2));
    assert_eq!(t.check_spam(2, 30), (false, 2));
    assert_eq!(t.check_spam(1, 40), (false, 3));
    assert_eq!(t.check_spam(2, 50), (false, 3));
}

#[test]
fn cleared_user_starts_fresh() {
    let mut t = ActivityTracker::with_config(small_config());
    t.check_spam(9, 100);
    t.check_spam(9, 200);
    t.clear_user(9);
    assert_eq!(t.check_spam(9, 300), (false, 1));
}

#[test]
fn clear_user_is_idempotent_and_ignores_unknown_users() {
    let mut t = ActivityTracker::with_config(small_config());
    t.clear_user(42);
    t.check_spam(42, 1);
    t.clear_user(42);
    t.clear_user(42);
    assert_eq!(t.check_spam(42, 2), (false, 1));
}

#[test]
fn rand_simple_is_pure() {
    let a = rand_simple(123_456, 7, 8);
    let b = rand_simple(123_456, 7, 8);
    assert_eq!(a, b);
}

#[test]
fn rand_simple_varies_with_each_input() {
    let base = rand_simple(123_456, 7, 8);
    assert_ne!(base, rand_simple(123_457, 7, 8));
    assert_ne!(base, rand_simple(123_456, 9, 8));
    assert_ne!(base, rand_simple(123_456, 7, 10));
}

#[test]
fn quiet_chat_never_triggers() {
    // One message from one user: both thresholds unmet, so the draw never
    // matters even with the trigger threshold wide open.
    let mut t = ActivityTracker::with_config(small_config());
    assert!(!t.record_chat_activity(1, 1, 1_000));
}

#[test]
fn one_user_alone_never_triggers() {
    let mut t = ActivityTracker::with_config(small_config());
    assert!(!t.record_chat_activity(1, 1, 1_000));
    assert!(!t.record_chat_activity(1, 1, 2_000));
    assert!(!t.record_chat_activity(1, 1, 3_000));
}

#[test]
fn zero_threshold_never_triggers() {
    let mut cfg = small_config();
    cfg.chat_trigger_threshold = 0;
    let mut t = ActivityTracker::with_config(cfg);
    assert!(!t.record_chat_activity(1, 1, 1_000));
    assert!(!t.record_chat_activity(1, 2, 2_000));
    assert!(!t.record_chat_activity(1, 3, 3_000));
}

#[test]
fn busy_chat_triggers_then_cooldown_blocks() {
    let mut t = ActivityTracker::with_config(small_config());
    // The draw for the triggering call; anything below u64::MAX passes.
    assert!(rand_simple(2_000, 1, 2) < u64::MAX);
    assert!(!t.record_chat_activity(1, 1, 1_000));
    assert!(t.record_chat_activity(1, 2, 2_000));
    // Within the cooldown nothing triggers, however busy the chat is.
    assert!(rand_simple(3_000, 1, 3) < u64::MAX);
    assert!(!t.record_chat_activity(1, 3, 3_000));
    assert!(!t.record_chat_activity(1, 1, 4_000));
}

#[test]
fn trigger_returns_after_cooldown_expires() {
    let mut t = ActivityTracker::with_config(small_config());
    assert!(!t.record_chat_activity(1, 1, 1_000));
    assert!(t.record_chat_activity(1, 2, 2_000));
    assert!(!t.record_chat_activity(1, 3, 3_000));
    // 47_000 - 2_000 = 45_000, exactly the cooldown: no longer blocked.
    assert!(rand_simple(47_000, 1, 2) < u64::MAX);
    assert!(!t.record_chat_activity(1, 1, 46_000));
    assert!(t.record_chat_activity(1, 2, 47_000));
}

#[test]
fn scopes_have_independent_cooldowns() {
    let mut t = ActivityTracker::with_config(small_config());
    assert!(!t.record_chat_activity(1, 1, 1_000));
    assert!(t.record_chat_activity(1, 2, 2_000));
    // The other scope has its own history and no cooldown yet.
    assert!(rand_simple(4_000, 2, 2) < u64::MAX);
    assert!(!t.record_chat_activity(2, 1, 3_000));
    assert!(t.record_chat_activity(2, 2, 4_000));
}

#[test]
fn identical_runs_give_identical_decisions() {
    let mut a = ActivityTracker::with_config(small_config());
    let mut b = ActivityTracker::with_config(small_config());
    for (scope, user, ts) in [(1u64, 1u64, 1_000u64), (1, 2, 2_000), (1, 3, 3_000)] {
        assert_eq!(
            a.record_chat_activity(scope, user, ts),
            b.record_chat_activity(scope, user, ts)
        );
    }
}

#[test]
fn cleared_guild_starts_fresh() {
    let mut t = ActivityTracker::with_config(small_config());
    assert!(!t.record_chat_activity(1, 1, 1_000));
    assert!(t.record_chat_activity(1, 2, 2_000));
    t.clear_guild(1);
    // History and cooldown are both gone: the scope behaves as never seen,
    // so a single fresh message cannot trigger...
    assert!(!t.record_chat_activity(1, 1, 3_000));
    // ...but a busy fresh chat can, cooldown notwithstanding.
    assert!(rand_simple(4_000, 1, 2) < u64::MAX);
    assert!(t.record_chat_activity(1, 2, 4_000));
}

#[test]
fn default_tracker_thresholds_apply() {
    let mut t = ActivityTracker::new();
    // Default spam threshold is 20: the 21st message in the window flags.
    for i in 0..20u64 {
        let (is_spam, count) = t.check_spam(3, 1_000 + i);
        assert!(!is_spam);
        assert_eq!(count as u64, i + 1);
    }
    let (is_spam, count) = t.check_spam(3, 1_030);
    assert!(is_spam);
    assert_eq!(count, 21);
}
