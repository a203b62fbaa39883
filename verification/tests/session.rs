use akagi::session::{
    inter_game_delay, inter_game_millis, AutoplaySession, AutoplaySessionStatus,
};
use std::time::Duration;

#[test]
fn finite_session_counts_and_stops() {
    let mut s = AutoplaySession::new();
    s.start(Some(2)).unwrap();
    assert!(s.is_active());
    assert!(s.on_game_finished(), "1 of 2 — queue the next");
    assert!(!s.on_game_finished(), "2 of 2 — stop");
    assert!(!s.is_active());
    assert_eq!(s.status().games_completed, 2);
    assert!(s.status().stop_reason.unwrap().contains("2 of 2"));
    assert_eq!(s.status().stop_reason.as_deref(), Some("finished 2 of 2 games"));
}

#[test]
fn infinite_session_runs_until_stopped() {
    let mut s = AutoplaySession::new();
    s.start(None).unwrap();
    for _ in 0..10 {
        assert!(s.on_game_finished());
    }
    s.stop("stopped by user");
    assert!(!s.is_active());
    assert!(!s.on_game_finished(), "inactive session never queues");
}

#[test]
fn second_start_is_refused_while_active() {
    let mut s = AutoplaySession::new();
    s.start(None).unwrap();
    assert!(s.start(None).is_err());
    s.stop("done");
    assert!(s.start(Some(3)).is_ok());
    // Restart resets the counters.
    assert_eq!(s.status().games_completed, 0);
    assert!(s.status().stop_reason.is_none());
}

#[test]
fn stop_during_a_game_lets_it_finish() {
    let mut s = AutoplaySession::new();
    s.start(None).unwrap();
    s.stop_requested = true;
    assert!(!s.on_game_finished(), "no queue after a mid-game stop");
}

#[test]
fn queue_wait_timer_starts_and_clears() {
    let mut s = AutoplaySession::new();
    s.start(None).unwrap();
    assert!(s.status().queue_seconds.is_none());
    s.note_queuing();
    assert_eq!(s.status().queue_seconds, Some(0));
    s.clear_queue_wait();
    assert!(s.status().queue_seconds.is_none());
}

#[test]
fn between_games_timer_starts_and_clears_on_queuing() {
    let mut s = AutoplaySession::new();
    s.start(None).unwrap();
    assert!(s.status().between_games_seconds.is_none());
    s.note_between_games();
    assert_eq!(s.status().between_games_seconds, Some(0));
    // Queueing takes over from waiting.
    s.note_queuing();
    assert!(s.status().between_games_seconds.is_none());
    assert_eq!(s.status().queue_seconds, Some(0));
}

#[test]
fn inter_game_delay_never_goes_below_the_configured_value() {
    // With x = 8000: always in [8000, 12000] ms.
    for _ in 0..200 {
        let d = inter_game_delay(8_000);
        assert!(d >= Duration::from_millis(8_000), "got {:?}", d);
        assert!(d <= Duration::from_millis(12_000), "got {:?}", d);
    }
    // Edge: tiny config still works.
    let d = inter_game_delay(2);
    assert!(d >= Duration::from_millis(2));
}

#[test]
fn inter_game_delay_draws_differ() {
    let draws: Vec<Duration> = (0..50).map(|_| inter_game_delay(1_000_000)).collect();
    assert!(draws.iter().any(|d| *d != draws[0]));
}

#[test]
fn inter_game_millis_adds_the_drawn_part() {
    assert_eq!(inter_game_millis(8_000, 0), 8_000);
    assert_eq!(inter_game_millis(8_000, 4_000), 12_000);
    assert_eq!(inter_game_millis(8_000, 4_001), 8_000);
    assert_eq!(inter_game_millis(8_000, 12_345), 8_000 + 12_345 % 4_001);
    // Nothing to add at zero and one.
    assert_eq!(inter_game_millis(0, 1), 0);
    assert_eq!(inter_game_millis(0, u64::MAX), 0);
    assert_eq!(inter_game_millis(1, 2), 1);
    assert_eq!(inter_game_delay(0), Duration::from_millis(0));
    assert_eq!(inter_game_delay(1), Duration::from_millis(1));
    assert_eq!(inter_game_millis(2, 1), 3);
    assert_eq!(inter_game_millis(u32::MAX, 0), u64::from(u32::MAX));
}

#[test]
fn a_new_session_is_idle() {
    let s = AutoplaySession::default();
    assert!(!s.is_active());
    assert_eq!(s.start_generation(), 0);
    assert_eq!(
        s.status(),
        AutoplaySessionStatus {
            active: false,
            target_games: None,
            games_completed: 0,
            stop_reason: None,
            queue_seconds: None,
            between_games_seconds: None,
        }
    );
}

#[test]
fn a_refused_start_changes_nothing() {
    let mut s = AutoplaySession::new();
    s.start(Some(5)).unwrap();
    assert!(s.on_game_finished());
    assert_eq!(s.start(Some(9)), Err("an autoplay session is already running".to_string()));
    assert_eq!(s.status().games_completed, 1);
    assert_eq!(s.status().target_games, Some(5));
}

#[test]
fn the_start_generation_counts_games() {
    let mut s = AutoplaySession::new();
    s.note_game_started();
    s.note_game_started();
    assert_eq!(s.start_generation(), 2);
    s.start_generation = u64::MAX;
    s.note_game_started();
    assert_eq!(s.start_generation(), 0);
}

#[test]
fn a_stop_keeps_its_reason_and_the_count() {
    let mut s = AutoplaySession::new();
    s.start(Some(3)).unwrap();
    s.on_game_finished();
    s.stop("stopped by user");
    assert!(!s.on_game_finished());
    let status = s.status();
    assert_eq!(status.games_completed, 1);
    assert_eq!(status.stop_reason.as_deref(), Some("stopped by user"));
    assert!(!status.active);
}

#[test]
fn the_status_shows_the_given_waits() {
    let mut s = AutoplaySession::new();
    s.start(Some(4)).unwrap();
    assert_eq!(
        s.status_after(Some(Duration::from_millis(7_900)), None),
        AutoplaySessionStatus {
            active: true,
            target_games: Some(4),
            games_completed: 0,
            stop_reason: None,
            queue_seconds: Some(7),
            between_games_seconds: None,
        }
    );
}

#[test]
fn a_running_timer_counts_whole_seconds() {
    let mut s = AutoplaySession::new();
    let Some(earlier) = std::time::Instant::now().checked_sub(Duration::from_millis(3_500)) else {
        return;
    };
    s.queued_since = Some(earlier);
    assert_eq!(s.status().queue_seconds, Some(3));
}

#[test]
fn a_running_wait_between_games_is_restarted() {
    let mut s = AutoplaySession::new();
    let now = std::time::Instant::now();
    let Some(earlier) = now.checked_sub(Duration::from_secs(60)) else {
        return;
    };
    s.note_queuing_at(earlier);
    s.note_between_games_at(earlier);
    assert_eq!(s.status().between_games_seconds, Some(60));
    s.note_between_games_at(now);
    assert_eq!(s.between_games_since, Some(now));
    s.note_between_games_at(earlier);
    s.note_between_games();
    assert_eq!(s.status().between_games_seconds, Some(0));
    // The other timer goes on.
    assert_eq!(s.queued_since, Some(earlier));
    s.note_queuing();
    assert_eq!(s.status().queue_seconds, Some(0));
    assert_eq!(s.status().between_games_seconds, None);
}

#[test]
fn a_start_is_refused_exactly_while_active() {
    let mut s = AutoplaySession::new();
    assert!(s.start(Some(1)).is_ok() && s.is_active());
    assert!(s.start(None).is_err());
    assert!(!s.on_game_finished());
    assert!(!s.is_active() && s.start(None).is_ok());
    s.stop("enough");
    assert!(!s.is_active() && s.start(None).is_ok());
    assert!(s.is_active() && s.status().stop_reason.is_none());
}

/// Both timers run at once, and each shows its own wait.
#[test]
fn each_timer_shows_its_own_wait() {
    let mut s = AutoplaySession::new();
    let now = std::time::Instant::now();
    let (Some(queued), Some(waited)) =
        (now.checked_sub(Duration::from_secs(90)), now.checked_sub(Duration::from_secs(30)))
    else {
        return;
    };
    s.note_queuing_at(queued);
    s.note_between_games_at(waited);
    let status = s.status();
    assert_eq!(status.queue_seconds, Some(90));
    assert_eq!(status.between_games_seconds, Some(30));
}
