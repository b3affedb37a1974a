//! Cold files, the control API and the dashboard's proxy decisions.
use tonggeret_dashboard::cold::{
    days_to_secs, expired_cold_files, is_cold_filename, list_cold_files, ColdEntry,
};
use tonggeret_dashboard::config::TargetConfig;
use tonggeret_dashboard::control::{AddTargetsRequest, ApiError, Control, Next};
use tonggeret_dashboard::proxy::{
    answer_body, dashboard_status, forwarded_url, gateway_detail, status_url, upstream_base,
    Forwarded, StatusAnswer, StatusReply,
};
use tonggeret_dashboard::queue::{Job, JobKind, JobQueue, JobState};
use tonggeret_dashboard::query::RecentBuffer;
use tonggeret_dashboard::scrape::FetchError;
use tonggeret_dashboard::status::StatusTracker;
use tonggeret_dashboard::targets::{Mode, Target, TargetError, TargetRegistry};

fn names(list: &[&str]) -> Vec<String> {
    list.iter().map(|s| s.to_string()).collect()
}

#[test]
fn manifest_lists_only_cold_parquet_sorted() {
    let listed = list_cold_files(&names(&[
        "metrics_cold_b.parquet",
        "metrics_cold_a.parquet",
        "notes.txt",
        "metrics_cold_tmp.part",
    ]));
    assert_eq!(
        listed,
        vec![
            "/telemetry/cold/metrics_cold_a.parquet".to_string(),
            "/telemetry/cold/metrics_cold_b.parquet".to_string(),
        ]
    );
    assert!(list_cold_files(&vec![]).is_empty());
}

#[test]
fn cold_filename_allowlist() {
    assert!(is_cold_filename("metrics_cold_20240101T000000.parquet"));
    assert!(!is_cold_filename("metrics_cold_20240101T000000.parquet/.."));
    assert!(!is_cold_filename("../metrics_cold_x.parquet"));
    assert!(!is_cold_filename("metrics_cold_x.parquet%00"));
    assert!(!is_cold_filename("notes.txt"));
    assert!(!is_cold_filename(""));
    assert!(!is_cold_filename("metrics_cold_tmp.part"));
    assert!(!is_cold_filename("metrics_cold_a/b.parquet"));
    assert!(!is_cold_filename("metrics_cold_a\\b.parquet"));
    assert!(!is_cold_filename("metrics_cold_a..parquet"));
}

#[test]
fn purge_removes_only_expired_cold_files() {
    let day: i128 = 86_400_000_000_000;
    let now: i128 = 20_000 * day;
    let entry = |name: &str, age: i128| ColdEntry {
        name: name.to_string(),
        modified: Some(now - age),
    };
    let mut entries = vec![
        entry("metrics_cold_old.parquet", 40 * day),
        entry("metrics_cold_new.parquet", 10),
        entry("keep.txt", 40 * day),
        entry("metrics_cold_edge.parquet", 32 * day),
    ];
    entries.push(ColdEntry {
        name: "metrics_cold_unknown.parquet".to_string(),
        modified: None,
    });
    let cutoff = now - i128::from(days_to_secs(32)) * 1_000_000_000;
    assert_eq!(expired_cold_files(&entries, cutoff), vec!["metrics_cold_old.parquet"]);
    assert_eq!(days_to_secs(32), 2_764_800);
    assert_eq!(days_to_secs(u64::MAX), u64::MAX);
}

fn control(token: Option<&str>) -> Control {
    let config = vec![TargetConfig {
        name: "app".to_string(),
        url: "http://localhost/app/metrics".to_string(),
        allow: vec!["http_".to_string()],
    }];
    Control::new(
        TargetRegistry::load(&config, None, 8, 0).unwrap(),
        JobQueue::new(2, 0),
        StatusTracker::new(&config, 15, 30),
        token.map(str::to_string),
    )
}

fn request(urls: &[&str], mode: Mode) -> AddTargetsRequest {
    AddTargetsRequest {
        urls: names(urls),
        url: None,
        name: None,
        allow: None,
        mode,
    }
}

fn add(c: &mut Control, req: AddTargetsRequest, now: u64) -> Result<(Vec<Target>, Vec<Job>), ApiError> {
    let mut adding = c.begin_add(None, req)?;
    while c.add_next_at(&mut adding, now)? {
        c.admit_at(&mut adding, Ok(()), now)?;
    }
    Ok(adding.finish())
}

fn enqueue(c: &mut Control, urls: &[&str], now: u64) -> Result<Vec<Job>, ApiError> {
    let mut enqueuing = c.begin_enqueue(None, &names(urls))?;
    while c.find_next_at(&mut enqueuing, now)? != Next::Finished {
        c.queue_found_at(&mut enqueuing, Ok(()), now)?;
    }
    Ok(enqueuing.finish())
}

#[test]
fn added_targets_are_tracked_and_once_targets_queued() {
    let mut c = control(None);
    let (targets, jobs) =
        add(&mut c, request(&["https://a.example/metrics"], Mode::Recurring), 1).unwrap();
    assert!(targets[0].enabled);
    assert!(jobs.is_empty());
    let (targets, jobs) = add(
        &mut c,
        request(&["https://b.example/metrics", "https://c.example/metrics"], Mode::Once),
        2,
    )
    .unwrap();
    assert_eq!(targets.len(), 2);
    assert_eq!((jobs[0].target.as_str(), jobs[0].kind), ("b.example", JobKind::Manual));
    assert_eq!(jobs[1].target, "c.example");
    assert_eq!(c.registry().list().len(), 4);
    assert_eq!(c.queue().snapshot().depth, 2);
    assert_eq!(c.tracker().snapshot(0, 1, 0).targets.len(), 4);
}

#[test]
fn unsaved_target_is_an_internal_error() {
    let mut c = control(None);
    let mut adding = c.begin_add(None, request(&["http://x"], Mode::Once)).unwrap();
    assert!(c.add_next_at(&mut adding, 1).unwrap());
    let saved = Err(TargetError::Persist("disk full".to_string()));
    let e = c.admit_at(&mut adding, saved, 1).unwrap_err();
    assert_eq!(e.answer(), (500, "disk full".to_string()));
    // The registry keeps the target; nothing tracks or queues it.
    assert_eq!(c.registry().list().len(), 2);
    assert_eq!(c.tracker().snapshot(0, 1, 0).targets.len(), 1);
    assert_eq!(c.queue().snapshot().depth, 0);
}

#[test]
fn add_request_faults() {
    let mut c = control(None);
    let detail = |r: Result<(Vec<Target>, Vec<Job>), ApiError>| r.unwrap_err().answer();
    assert_eq!(
        detail(add(&mut c, request(&[" ", ""], Mode::Once), 1)),
        (422, "urls must not be empty".to_string())
    );
    let two = AddTargetsRequest {
        url: Some("http://x".to_string()),
        name: Some("x".to_string()),
        ..request(&["http://y"], Mode::Recurring)
    };
    assert_eq!(
        detail(add(&mut c, two, 1)),
        (422, "name is only valid with a single url".to_string())
    );
    let one = AddTargetsRequest {
        url: Some("http://x".to_string()),
        name: Some("x".to_string()),
        ..request(&[" "], Mode::Recurring)
    };
    assert_eq!(add(&mut c, one, 1).unwrap().0[0].name, "x");
    let mixed = AddTargetsRequest {
        url: Some("ftp://z".to_string()),
        ..request(&["http://y"], Mode::Recurring)
    };
    assert_eq!(
        detail(add(&mut c, mixed, 1)),
        (422, "url must start with http(s)://: ftp://z".to_string())
    );
    // The first URL of the refused request was added before.
    assert!(c.registry().find_by_url("http://y").is_some());
}

#[test]
fn enqueue_finds_or_creates_targets() {
    let mut c = control(None);
    let e = enqueue(&mut c, &[" "], 1).unwrap_err();
    assert_eq!(e.answer(), (422, "urls must not be empty".to_string()));
    let jobs =
        enqueue(&mut c, &["", " http://localhost/app/metrics ", "http://new.example"], 1).unwrap();
    assert_eq!(jobs.len(), 2);
    assert_eq!((jobs[0].target.as_str(), jobs[0].allow.len()), ("app", 1));
    assert_eq!(jobs[1].target, "new.example");
    assert_eq!(c.registry().find_by_url("http://new.example").unwrap().mode, Mode::Once);
    assert_eq!(c.tracker().snapshot(0, 1, 0).targets.len(), 2);
    let e = enqueue(&mut c, &["http://new.example"], 3).unwrap_err();
    assert_eq!(e.answer(), (429, "queue full (2)".to_string()));
}

#[test]
fn token_is_enforced_and_refusals_change_nothing() {
    let mut c = control(Some("s3"));
    let denied = (401, "missing or invalid x-control-token".to_string());
    let req = || request(&["http://x"], Mode::Once);
    for got in [None, Some("s4"), Some("")] {
        assert_eq!(c.begin_add(got, req()).unwrap_err().answer(), denied);
        assert_eq!(c.begin_enqueue(got, &req().urls).unwrap_err().answer(), denied);
        assert_eq!(c.set_enabled(got, "cfg:app", false).unwrap_err().answer(), denied);
        assert_eq!(c.remove_target(got, "cfg:app").unwrap_err().answer(), denied);
        assert_eq!(c.pause_queue(got).unwrap_err().answer(), denied);
        assert_eq!(c.resume_queue(got).unwrap_err().answer(), denied);
        assert_eq!(c.freeze_worker(got).unwrap_err().answer(), denied);
        assert_eq!(c.resume_worker(got).unwrap_err().answer(), denied);
        assert_eq!(c.cancel_job_at(got, "j", 1).unwrap_err().answer(), denied);
        assert_eq!(c.clear_queue_at(got, 1).unwrap_err().answer(), denied);
    }
    assert!(!c.queue().is_paused() && !c.queue().is_frozen());
    assert!(c.begin_add(Some("s3"), req()).is_ok());
    assert!(c.pause_queue(Some("s3")).is_ok());
    assert!(c.queue().is_paused());
    assert!(c.resume_queue(Some("s3")).is_ok());
    assert!(c.freeze_worker(Some("s3")).is_ok());
    assert!(c.queue().is_frozen());
    assert!(c.resume_worker(Some("s3")).is_ok());
    assert!(!c.queue().is_frozen());
}

#[test]
fn target_and_job_errors_are_mapped() {
    let mut c = control(None);
    let e = c.remove_target(None, "zz").unwrap_err();
    assert_eq!(e.answer(), (404, "zz".to_string()));
    let e = c.remove_target(None, "cfg:app").unwrap_err();
    assert_eq!(e.answer(), (422, "config targets cannot be removed".to_string()));
    let e = c.cancel_job_at(None, "zz", 1).unwrap_err();
    assert_eq!(e.answer(), (404, "zz".to_string()));
    assert_eq!(ApiError::Internal("disk".to_string()).answer(), (500, "disk".to_string()));
    let job = enqueue(&mut c, &["http://new.example"], 2).unwrap().remove(0);
    let t = c.registry().find_by_url("http://new.example").unwrap();
    let off = c.set_enabled(None, &t.id, true).unwrap();
    assert!(off.enabled);
    let gone = c.remove_target(None, &t.id).unwrap();
    assert_eq!(gone.name, "new.example");
    c.forget_target(&gone.name);
    assert_eq!(c.tracker().snapshot(0, 1, 0).targets.len(), 1);
    assert_eq!(c.cancel_job_at(None, &job.id, 4).unwrap().state, JobState::Cancelled);
    assert_eq!(c.clear_queue_at(None, 5).unwrap(), 0);
}

#[test]
fn sweep_queues_each_recurring_target_once() {
    let mut c = control(None);
    add(&mut c, request(&["http://once.example"], Mode::Once), 1).unwrap();
    c.clear_queue_at(None, 1).unwrap();
    c.freeze_worker(None).unwrap();
    c.sweep_at(1);
    assert_eq!(c.queue().snapshot().depth, 0);
    c.resume_worker(None).unwrap();
    c.sweep_at(2);
    c.sweep_at(3);
    assert_eq!(c.queue().snapshot().depth, 1);
    let job = c.pop_next_at(4).unwrap();
    assert_eq!((job.target.as_str(), job.kind), ("app", JobKind::Scheduled));
    let mut buffer = RecentBuffer::new(10);
    let fetched = Err(FetchError::InvalidUtf8);
    let outcome = c.scrape_job_at(&job, fetched, 5, 77, &mut buffer, 8, 5);
    c.finish_job_at(job, &outcome, 5);
    let done = &c.queue().snapshot().recent[0];
    assert_eq!((done.state, done.error.as_deref()), (JobState::Failed, Some("fetch_error")));
    assert_eq!(c.tracker().snapshot(0, 1, 0).targets[0].consecutive_failures, 1);
    c.sweep_at(6);
    let job = c.pop_next_at(7).unwrap();
    let fetched = Ok("http_a 1\nhttp_b 2\nother 3\n".to_string());
    let outcome = c.scrape_job_at(&job, fetched, 1, 78, &mut buffer, 8, 8);
    assert_eq!(c.tracker().snapshot(0, 1, 0).targets[0].last_samples, 1);
    c.finish_job_at(job, &outcome, 8);
    let done = &c.queue().snapshot().recent[0];
    assert!(done.error.is_none());
    assert_eq!((done.samples, done.dropped), (1, 1));
    assert_eq!(buffer.names(), vec!["http_a"]);
}

#[test]
fn proxy_urls_and_failures() {
    assert_eq!(upstream_base("http://w:1//"), "http://w:1");
    assert_eq!(upstream_base("http://w:1"), "http://w:1");
    assert_eq!(upstream_base("///"), "");
    assert_eq!(forwarded_url("http://w", "/api/v1/labels?x=1"), "http://w/api/v1/labels?x=1");
    assert_eq!(status_url("http://w"), "http://w/api/v1/status");
    let s = |t: &str| t.to_string();
    assert_eq!(gateway_detail(&Forwarded::Answered), None);
    assert_eq!(
        gateway_detail(&Forwarded::BodyRefused(s("big"))),
        Some(s("request body too large: big"))
    );
    assert_eq!(
        gateway_detail(&Forwarded::Status(s("404 Not Found"))),
        Some(s("upstream returned 404 Not Found"))
    );
    assert_eq!(gateway_detail(&Forwarded::Unread(s("e"))), Some(s("upstream read failed: e")));
    assert_eq!(gateway_detail(&Forwarded::Unreachable(s("e"))), Some(s("collector offline: e")));
}

fn offline(reply: StatusReply) -> String {
    match dashboard_status(reply) {
        StatusAnswer::Offline(detail) => detail,
        StatusAnswer::Online(json) => panic!("online: {json}"),
    }
}

#[test]
fn status_is_forwarded_or_offline() {
    let body = StatusReply::Body(b" { \"status\" : \"ok\" } ".to_vec());
    match dashboard_status(body) {
        StatusAnswer::Online(json) => assert_eq!(json, "{\"status\":\"ok\"}"),
        StatusAnswer::Offline(detail) => panic!("offline: {detail}"),
    }
    let bad = offline(StatusReply::Body(b"{".to_vec()));
    assert!(bad.starts_with("bad upstream status body: EOF"), "{bad}");
    let s = |t: &str| t.to_string();
    assert_eq!(offline(StatusReply::Unread(s("e"))), "upstream read failed: e");
    assert_eq!(offline(StatusReply::Status(s("500"))), "upstream returned 500");
    assert_eq!(offline(StatusReply::Unreachable(s("e"))), "collector offline: e");
    assert!(matches!(answer_body(Ok(s("1"))), StatusAnswer::Online(j) if j == "1"));
    assert!(matches!(
        answer_body(Err(s("x"))),
        StatusAnswer::Offline(d) if d == "bad upstream status body: x"
    ));
}
