//! The job queue.
use tonggeret_dashboard::queue::{JobKind, JobQueue, JobState, QueueError, HISTORY_CAP};
use tonggeret_dashboard::scrape::ScrapeStatus;

fn queue() -> JobQueue {
    JobQueue::new(4, 0)
}

#[test]
fn manual_preferred_over_scheduled() {
    let mut q = queue();
    q.enqueue_scheduled("a", "http://a", vec![]).unwrap();
    q.enqueue_manual("b", "http://b", vec![]).unwrap();
    let first = q.pop_next().unwrap();
    assert_eq!(first.target, "b", "manual job runs first");
    assert_eq!(first.state, JobState::Running);
    let second = q.pop_next().unwrap();
    assert_eq!(second.target, "a");
    assert!(q.pop_next().is_none());
}

#[test]
fn pause_holds_manual_but_runs_scheduled() {
    let mut q = queue();
    q.enqueue_manual("b", "http://b", vec![]).unwrap();
    q.pause();
    assert!(q.is_paused());
    assert!(q.pop_next().is_none(), "paused manual job stays pending");

    assert!(q.enqueue_scheduled("a", "http://a", vec![]).unwrap().is_some());
    let job = q.pop_next().unwrap();
    assert_eq!(job.target, "a", "scheduled runs while paused");

    q.resume();
    let job = q.pop_next().unwrap();
    assert_eq!(job.target, "b", "manual runs after resume");
}

#[test]
fn scheduled_dedupe_skips_pending_and_running() {
    let mut q = queue();
    assert!(q.enqueue_scheduled("a", "http://a", vec![]).unwrap().is_some());
    assert!(q.enqueue_scheduled("a", "http://a", vec![]).unwrap().is_none());
    let job = q.pop_next().unwrap(); // now running
    assert!(q.enqueue_scheduled("a", "http://a", vec![]).unwrap().is_none());
    q.complete(job, ScrapeStatus::Success, 1, 0, None);
    assert!(q.enqueue_scheduled("a", "http://a", vec![]).unwrap().is_some());
}

#[test]
fn bounded_and_clear_and_cancel() {
    let mut q = JobQueue::new(2, 0);
    q.enqueue_manual("a", "http://a", vec![]).unwrap();
    let b = q.enqueue_manual("b", "http://b", vec![]).unwrap();
    assert!(matches!(
        q.enqueue_manual("c", "http://c", vec![]).unwrap_err(),
        QueueError::Full(2)
    ));
    assert_eq!(q.snapshot().depth, 2);
    q.cancel(&b.id).unwrap();
    assert_eq!(q.snapshot().depth, 1);
    assert!(q.cancel("nope").is_err());
    assert_eq!(q.clear_pending(), 1);
    assert_eq!(q.snapshot().depth, 0);
}

#[test]
fn complete_records_state_and_counters() {
    let mut q = queue();
    let job = q.enqueue_manual("a", "http://a", vec![]).unwrap();
    let running = q.pop_next().unwrap();
    q.complete(running, ScrapeStatus::Success, 12, 1, None);
    let snap = q.snapshot();
    assert_eq!(snap.done, 1);
    assert_eq!(snap.failed, 0);
    assert!(snap.running.is_none());
    assert_eq!(snap.recent[0].state, JobState::Done);
    assert_eq!(snap.recent[0].samples, 12);
    assert_eq!(snap.recent[0].dropped, 1);
    assert_eq!(snap.recent[0].target, job.target);

    let running = {
        q.enqueue_manual("b", "http://b", vec![]).unwrap();
        q.pop_next().unwrap()
    };
    q.complete(running, ScrapeStatus::FetchError, 0, 0, Some("boom".into()));
    let snap = q.snapshot();
    assert_eq!(snap.failed, 1);
    assert_eq!(snap.recent[0].state, JobState::Failed);
    assert_eq!(snap.recent[0].error.as_deref(), Some("boom"));
}

#[test]
fn freeze_halts_all_pops_until_unfreeze() {
    let mut q = queue();
    q.enqueue_manual("m", "http://m", vec![]).unwrap();
    q.enqueue_scheduled("s", "http://s", vec![]).unwrap();
    q.freeze();
    assert!(q.is_frozen());
    assert!(q.snapshot().frozen);
    assert!(q.pop_next().is_none(), "frozen: nothing runs");
    assert_eq!(q.snapshot().depth, 2, "jobs stay queued while frozen");

    q.unfreeze();
    assert!(!q.is_frozen());
    let first = q.pop_next().unwrap();
    assert_eq!(first.target, "m", "manual remains first after unfreeze");
    let second = q.pop_next().unwrap();
    assert_eq!(second.target, "s");
}

#[test]
fn job_ids_times_and_messages() {
    let mut q = JobQueue::new(0, 0);
    let a = q.enqueue_manual_at("a", "http://a", vec!["x_".to_string()], 1700).unwrap();
    assert_eq!(a.id, "j1700:0");
    assert_eq!(a.kind, JobKind::Manual);
    assert_eq!((a.enqueued_at, a.started_at, a.finished_at), (1700, None, None));
    let e = q.enqueue_scheduled_at("b", "http://b", vec![], 1701).unwrap_err();
    assert_eq!(e.message(), "queue full (1)");
    let running = q.pop_next_at(1702).unwrap();
    assert_eq!(running.started_at, Some(1702));
    assert_eq!(q.snapshot().running.unwrap().id, "j1700:0");
    let b = q.enqueue_scheduled_at("b", "http://b", vec![], 1703).unwrap().unwrap();
    assert_eq!(b.id, "j1703:1");
    assert_eq!(q.cancel_at("x", 1704).unwrap_err().message(), "unknown or non-pending job x");
    let b = q.cancel_at("j1703:1", 1704).unwrap();
    assert_eq!((b.state, b.finished_at), (JobState::Cancelled, Some(1704)));
    // A running job is not pending.
    assert!(q.cancel_at("j1700:0", 1705).is_err());
}

#[test]
fn first_in_first_out_within_a_kind() {
    let mut q = queue();
    for t in ["a", "b", "c"] {
        q.enqueue_manual(t, "http://x", vec![]).unwrap();
    }
    let order: Vec<String> = (0..3).map(|_| q.pop_next().unwrap().target).collect();
    assert_eq!(order, vec!["a", "b", "c"]);
}

#[test]
fn history_is_bounded_newest_first() {
    let mut q = JobQueue::new(HISTORY_CAP + 20, 0);
    for _ in 0..HISTORY_CAP + 20 {
        q.enqueue_manual_at("a", "http://a", vec![], 1).unwrap();
    }
    assert_eq!(q.clear_pending_at(9), HISTORY_CAP + 20);
    let recent = q.snapshot().recent;
    assert_eq!(recent.len(), HISTORY_CAP);
    assert_eq!(recent[0].id, "j1:119");
    assert_eq!(recent[HISTORY_CAP - 1].id, "j1:20");
    assert!(recent.iter().all(|j| j.finished_at == Some(9)));
}

#[test]
fn numbers_go_on_from_the_first() {
    let mut q = JobQueue::new(1, 7);
    assert_eq!(q.enqueue_manual_at("a", "http://a", vec![], 1).unwrap().id, "j1:7");
    assert_eq!(q.next_number(), 8);
}

#[test]
fn freeze_outlasts_every_other_call() {
    let mut q = queue();
    q.enqueue_manual_at("m", "http://m", vec![], 1).unwrap();
    q.pause();
    q.freeze();
    q.resume();
    q.pause();
    q.enqueue_scheduled_at("s", "http://s", vec![], 2).unwrap();
    let x = q.enqueue_manual_at("x", "http://x", vec![], 3).unwrap();
    q.cancel_at(&x.id, 4).unwrap();
    assert!(q.is_frozen() && q.is_paused());
    assert!(q.pop_next_at(5).is_none());
    q.unfreeze();
    assert!(q.is_paused(), "the pause is left as it was");
    assert_eq!(q.snapshot().depth, 2);
    assert_eq!(q.pop_next_at(6).unwrap().target, "s");
}

#[test]
fn pending_ids_differ_and_history_has_ended() {
    let mut q = queue();
    for _ in 0..3 {
        q.enqueue_manual_at("a", "http://a", vec![], 1).unwrap();
    }
    let job = q.pop_next_at(2).unwrap();
    q.complete_at(job, ScrapeStatus::ParseError, 0, 0, None, 3);
    q.enqueue_manual_at("a", "http://a", vec![], 1).unwrap();
    let snap = q.snapshot();
    let ids: Vec<&str> = snap.pending.iter().map(|j| j.id.as_str()).collect();
    assert_eq!(ids, vec!["j1:1", "j1:2", "j1:3"]);
    q.cancel_at("j1:2", 4).unwrap();
    let states: Vec<JobState> = q.snapshot().recent.iter().map(|j| j.state).collect();
    assert_eq!(states, vec![JobState::Cancelled, JobState::Failed]);
}
