//! Collector status.
use tonggeret_dashboard::config::TargetConfig;
use tonggeret_dashboard::query::RecentBuffer;
use tonggeret_dashboard::queue::JobQueue;
use tonggeret_dashboard::scrape::ScrapeStatus;
use tonggeret_dashboard::status::{
    collector_status_at, now_unix, StatusTracker, STATUS_DEGRADED, STATUS_OK, STATUS_STARTING,
};

fn targets() -> Vec<TargetConfig> {
    vec![
        TargetConfig {
            name: "a".to_string(),
            url: "http://localhost:1/metrics".to_string(),
            allow: vec!["http_".to_string()],
        },
        TargetConfig {
            name: "b".to_string(),
            url: "http://localhost:2/metrics".to_string(),
            allow: vec!["http_".to_string()],
        },
    ]
}

#[test]
fn starts_as_starting_then_ok() {
    let mut t = StatusTracker::new(&targets(), 15, 30);
    let snap = t.snapshot(0, 20_000, 0);
    assert_eq!(snap.status, STATUS_STARTING);
    assert_eq!(snap.targets.len(), 2);
    assert!(snap.targets[0].last_scrape_ts.is_none());

    t.record("a", ScrapeStatus::Success, 5, 12);
    let snap = t.snapshot(5, 20_000, 1);
    assert_eq!(snap.status, STATUS_STARTING, "b still unscraped");
    assert_eq!(snap.targets[0].last_status.as_deref(), Some("ok"));
    assert_eq!(snap.targets[0].last_samples, 5);
    assert_eq!(snap.targets[0].totals.ok, 1);
    assert_eq!(snap.buffer.cap, 20_000);
    assert_eq!(snap.cold_files, 1);

    t.record("b", ScrapeStatus::Success, 3, 7);
    assert_eq!(t.snapshot(0, 1, 0).status, STATUS_OK);
}

#[test]
fn failures_degrade_and_streaks_reset_on_success() {
    let mut t = StatusTracker::new(&targets(), 15, 30);
    t.record("a", ScrapeStatus::Success, 1, 1);
    t.record("b", ScrapeStatus::Success, 1, 1);

    t.record("a", ScrapeStatus::FetchError, 0, 5);
    let snap = t.snapshot(0, 1, 0);
    assert_eq!(snap.status, STATUS_DEGRADED);
    assert_eq!(snap.targets[0].consecutive_failures, 1);
    assert_eq!(snap.targets[0].totals.fetch_error, 1);

    t.record("a", ScrapeStatus::ParseError, 0, 5);
    assert_eq!(t.snapshot(0, 1, 0).targets[0].consecutive_failures, 2);

    t.record("a", ScrapeStatus::Success, 2, 5);
    let snap = t.snapshot(0, 1, 0);
    assert_eq!(snap.status, STATUS_OK);
    assert_eq!(snap.targets[0].consecutive_failures, 0);
    assert_eq!(snap.targets[0].totals.ok, 2);
    assert_eq!(snap.targets[0].totals.parse_error, 1);
}

#[test]
fn unknown_target_is_ignored() {
    let mut t = StatusTracker::new(&targets(), 15, 30);
    t.record("nope", ScrapeStatus::Success, 1, 1);
    let snap = t.snapshot(0, 1, 0);
    assert!(snap.targets.iter().all(|s| s.last_scrape_ts.is_none()));
}

#[test]
fn uptime_and_figures() {
    let mut t = StatusTracker::new_at(&targets(), 15, 30, 1000);
    t.record_at("b", ScrapeStatus::FetchError, 0, 9, 1010);
    let snap = t.snapshot_at(1, 2, 3, 1060);
    assert_eq!(snap.uptime_secs, 60);
    assert_eq!((snap.interval_secs, snap.retention_days), (15, 30));
    assert_eq!((snap.buffer.samples, snap.buffer.cap, snap.cold_files), (1, 2, 3));
    assert_eq!(snap.targets[1].last_scrape_ts, Some(1010));
    assert_eq!(snap.targets[1].last_duration_ms, 9);
    assert_eq!(snap.status, STATUS_DEGRADED);
    assert_eq!(t.snapshot_at(0, 1, 0, 10).uptime_secs, 0);
    assert!(now_unix() > 1_577_836_800);
}

#[test]
fn targets_come_and_go() {
    let mut t = StatusTracker::new(&targets(), 15, 30);
    t.add_target("c", "http://c");
    t.remove_target("a");
    t.remove_target("nope");
    let names: Vec<String> = t.snapshot(0, 1, 0).targets.into_iter().map(|s| s.name).collect();
    assert_eq!(names, vec!["b", "c"]);
}

#[test]
fn report_joins_buffer_queue_and_tracker() {
    let t = StatusTracker::new_at(&targets(), 15, 30, 0);
    let buffer = RecentBuffer::new(7);
    let mut q = JobQueue::new(3, 0);
    q.enqueue_manual_at("a", "http://a", vec![], 1).unwrap();
    q.enqueue_manual_at("b", "http://b", vec![], 1).unwrap();
    q.pop_next_at(2).unwrap();
    q.pause();
    let (snap, info) = collector_status_at(&t, &buffer, &q, 4, 5);
    assert_eq!((snap.buffer.samples, snap.buffer.cap, snap.cold_files), (0, 7, 4));
    assert_eq!((info.depth, info.cap, info.paused, info.frozen), (1, 3, true, false));
    assert_eq!(info.running.as_deref(), Some("a"));
    assert_eq!((info.done, info.failed), (0, 0));
}

#[test]
fn last_samples_are_those_of_the_last_success() {
    let mut t = StatusTracker::new(&targets(), 15, 30);
    t.record("a", ScrapeStatus::Success, 5, 12);
    t.record("a", ScrapeStatus::FetchError, 0, 7);
    let snap = t.snapshot(0, 1, 0);
    assert_eq!(snap.targets[0].last_samples, 5);
    assert_eq!(snap.targets[0].last_duration_ms, 7);
    t.record("a", ScrapeStatus::Success, 3, 1);
    assert_eq!(t.snapshot(0, 1, 0).targets[0].last_samples, 3);
}
