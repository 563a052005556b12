use eventsum::event::{Event, Level};
use eventsum::ranking::UserCount;
use eventsum::result::SummaryResult;

fn counts(pairs: &[(&str, usize)]) -> Vec<UserCount> {
    pairs.iter().map(|(u, c)| UserCount { user: u.to_string(), count: *c }).collect()
}

fn event(ts: &str, level: Level, user: &str, action: &str, duration_ms: u64) -> Event {
    Event {
        ts: ts.to_string(),
        level,
        user: user.to_string(),
        action: action.to_string(),
        duration_ms,
    }
}

#[test]
fn test_compute_top_users_basic() {
    let mut result = SummaryResult::new();
    let user_counts = counts(&[("alice", 5), ("bob", 3), ("carol", 1), ("dave", 7), ("eve", 2)]);
    result.compute_top_users(&user_counts);
    assert_eq!(result.top_users.len(), 3);
    assert_eq!(result.top_users[0].user, "dave");
    assert_eq!(result.top_users[0].count, 7);
    assert_eq!(result.top_users[1].user, "alice");
    assert_eq!(result.top_users[1].count, 5);
    assert_eq!(result.top_users[2].user, "bob");
    assert_eq!(result.top_users[2].count, 3);
}

#[test]
fn test_compute_top_users_tie_breaker() {
    let mut result = SummaryResult::new();
    let user_counts = counts(&[("charlie", 5), ("alice", 5), ("bob", 5), ("dave", 5)]);
    result.compute_top_users(&user_counts);
    assert_eq!(result.top_users.len(), 3);
    assert_eq!(result.top_users[0].user, "alice");
    assert_eq!(result.top_users[0].count, 5);
    assert_eq!(result.top_users[1].user, "bob");
    assert_eq!(result.top_users[1].count, 5);
    assert_eq!(result.top_users[2].user, "charlie");
    assert_eq!(result.top_users[2].count, 5);
}

#[test]
fn test_compute_top_users_mixed_tie() {
    let mut result = SummaryResult::new();
    let user_counts = counts(&[("alice", 10), ("bob", 5), ("carol", 5), ("dave", 3)]);
    result.compute_top_users(&user_counts);
    assert_eq!(result.top_users.len(), 3);
    assert_eq!(result.top_users[0].user, "alice");
    assert_eq!(result.top_users[0].count, 10);
    assert_eq!(result.top_users[1].user, "bob");
    assert_eq!(result.top_users[1].count, 5);
    assert_eq!(result.top_users[2].user, "carol");
    assert_eq!(result.top_users[2].count, 5);
}

#[test]
fn test_compute_top_users_less_than_three() {
    let mut result = SummaryResult::new();
    let user_counts = counts(&[("alice", 10), ("bob", 5)]);
    result.compute_top_users(&user_counts);
    assert_eq!(result.top_users.len(), 2);
    assert_eq!(result.top_users[0].user, "alice");
    assert_eq!(result.top_users[1].user, "bob");
}

#[test]
fn test_compute_top_users_empty() {
    let mut result = SummaryResult::new();
    let user_counts: Vec<UserCount> = Vec::new();
    result.compute_top_users(&user_counts);
    assert_eq!(result.top_users.len(), 0);
}

#[test]
fn test_compute_p95_single_event() {
    let mut result = SummaryResult::new();
    let events = vec![event("2026-01-19T12:00:01Z", Level::Info, "alice", "test", 100)];
    result.compute_p95_duration(&events);
    assert_eq!(result.p95_duration_ms, 100);
}

#[test]
fn test_compute_p95_multiple_events() {
    let mut result = SummaryResult::new();
    let events = vec![
        event("2026-01-19T12:00:01Z", Level::Info, "alice", "test", 120),
        event("2026-01-19T12:00:02Z", Level::Warn, "bob", "test", 400),
        event("2026-01-19T12:00:03Z", Level::Error, "alice", "test", 900),
        event("2026-01-19T12:00:04Z", Level::Info, "carol", "test", 20),
        event("2026-01-19T12:00:05Z", Level::Info, "alice", "test", 10),
    ];
    result.compute_p95_duration(&events);
    assert_eq!(result.p95_duration_ms, 900);
}

#[test]
fn test_compute_p95_empty() {
    let mut result = SummaryResult::new();
    let events: Vec<Event> = vec![];
    result.compute_p95_duration(&events);
    assert_eq!(result.p95_duration_ms, 0);
}

#[test]
fn test_compute_outlier() {
    let mut result = SummaryResult::new();
    let events = vec![
        event("2026-01-19T12:00:01Z", Level::Info, "alice", "test", 120),
        event("2026-01-19T12:00:02Z", Level::Error, "bob", "slow_task", 900),
        event("2026-01-19T12:00:03Z", Level::Info, "carol", "test", 50),
    ];
    result.compute_outlier(&events);
    assert!(result.outlier.is_some());
    let outlier = result.outlier.unwrap();
    assert_eq!(outlier.duration_ms, 900);
    assert_eq!(outlier.user, "bob");
    assert_eq!(outlier.action, "slow_task");
}

#[test]
fn test_compute_outlier_empty() {
    let mut result = SummaryResult::new();
    let events: Vec<Event> = vec![];
    result.compute_outlier(&events);
    assert!(result.outlier.is_none());
}

#[test]
fn outlier_tie_goes_to_first_seen() {
    let mut result = SummaryResult::new();
    let events = vec![
        event("t1", Level::Info, "alice", "a", 10),
        event("t2", Level::Warn, "bob", "b", 700),
        event("t3", Level::Error, "carol", "c", 700),
        event("t4", Level::Info, "dave", "d", 5),
    ];
    result.compute_outlier(&events);
    let outlier = result.outlier.unwrap();
    assert_eq!(outlier.user, "bob");
    assert_eq!(outlier.ts, "t2");
    assert_eq!(outlier.level, Level::Warn);
}

#[test]
fn p95_of_twenty_values_is_the_nineteenth() {
    let mut result = SummaryResult::new();
    let events: Vec<Event> = (1..=20u64).rev().map(|d| event("t", Level::Info, "u", "a", d * 10)).collect();
    result.compute_p95_duration(&events);
    assert_eq!(result.p95_duration_ms, 190);
}

#[test]
fn p95_of_twenty_one_values_is_the_twentieth() {
    let mut result = SummaryResult::new();
    let events: Vec<Event> = (1..=21u64).map(|d| event("t", Level::Info, "u", "a", d)).collect();
    result.compute_p95_duration(&events);
    assert_eq!(result.p95_duration_ms, 20);
}

#[test]
fn p95_with_repeated_values() {
    let mut result = SummaryResult::new();
    let events: Vec<Event> = [5u64, 1, 5, 3].iter().map(|d| event("t", Level::Info, "u", "a", *d)).collect();
    result.compute_p95_duration(&events);
    assert_eq!(result.p95_duration_ms, 5);
}

#[test]
fn top_users_do_not_depend_on_listing_order() {
    let a = counts(&[("dave", 7), ("alice", 5), ("bob", 5), ("carol", 1), ("eve", 9)]);
    let b = counts(&[("carol", 1), ("bob", 5), ("eve", 9), ("alice", 5), ("dave", 7)]);
    let mut ra = SummaryResult::new();
    let mut rb = SummaryResult::new();
    ra.compute_top_users(&a);
    rb.compute_top_users(&b);
    let names = |r: &SummaryResult| r.top_users.iter().map(|u| (u.user.clone(), u.count)).collect::<Vec<_>>();
    assert_eq!(names(&ra), names(&rb));
    assert_eq!(
        names(&ra),
        vec![("eve".to_string(), 9), ("dave".to_string(), 7), ("alice".to_string(), 5)]
    );
}

#[test]
fn top_users_order_names_by_code_point() {
    let mut result = SummaryResult::new();
    result.compute_top_users(&counts(&[("bob", 2), ("Bob", 2), ("bo", 2), ("zed", 1)]));
    let users: Vec<&str> = result.top_users.iter().map(|u| u.user.as_str()).collect();
    assert_eq!(users, vec!["Bob", "bo", "bob"]);
}

#[test]
fn counters_and_levels_increment() {
    let mut result = SummaryResult::new();
    result.increment_total_lines();
    result.increment_total_lines();
    result.increment_bad_lines();
    result.increment_events();
    result.update_level_counts(Level::Warn);
    result.update_level_counts(Level::Warn);
    result.update_level_counts(Level::Error);
    assert_eq!(result.total_lines, 2);
    assert_eq!(result.bad_lines, 1);
    assert_eq!(result.events, 1);
    assert_eq!(result.by_level.info, 0);
    assert_eq!(result.by_level.warn, 2);
    assert_eq!(result.by_level.error, 1);
}
