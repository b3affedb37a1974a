//! Parsing exposition text, planning what is stored, and one scrape cycle.
use tonggeret_dashboard::config::TargetConfig;
use tonggeret_dashboard::cycle::{
    accept_body, check_content_length, finish_scrape, scrape_once, Scraped,
};
use tonggeret_dashboard::exposition::parse_body;
use tonggeret_dashboard::numbers::format_value;
use tonggeret_dashboard::query::{RangeQuery, RecentBuffer};
use tonggeret_dashboard::status::StatusTracker;
use tonggeret_dashboard::scrape::{
    plan_samples, FetchError, MetricType, PlannedSample, Reading, Sample, ScrapeStatus,
    SCRAPE_TARGET_LABEL,
};

const ALLOW: &[&str] = &["http_", "beruang_", "tonggeret_", "visitors_", "unique_"];

fn allow() -> Vec<String> {
    ALLOW.iter().map(ToString::to_string).collect()
}

fn scrape_of(text: &str) -> Vec<Sample> {
    parse_body(text).unwrap()
}

fn find<'a>(planned: &'a [PlannedSample], name: &str) -> Vec<&'a PlannedSample> {
    planned.iter().filter(|s| s.name == name).collect()
}

fn label(sample: &PlannedSample, key: &str) -> Option<String> {
    sample.labels.iter().find(|(k, _)| k == key).map(|(_, v)| v.clone())
}

#[test]
fn counter_gauge_untyped_map_with_target_label() {
    let text = "# TYPE a counter\na 1\n# TYPE b gauge\nb{x=\"y\"} 2.5\nc 3\n";
    let (planned, dropped) = plan_samples("app", &scrape_of(text), &allow(), 100);
    assert_eq!(dropped, 0);
    assert!(planned.is_empty());

    let text = "# TYPE http_x counter\nhttp_x 1\n# TYPE beruang_y gauge\nberuang_y 2\n";
    let (planned, dropped) = plan_samples("app", &scrape_of(text), &allow(), 100);
    assert_eq!(dropped, 0);
    assert_eq!(planned.len(), 2);
    assert_eq!(planned[0].kind, MetricType::Counter);
    assert_eq!(planned[1].kind, MetricType::Gauge);
    for s in &planned {
        assert_eq!(label(s, SCRAPE_TARGET_LABEL).as_deref(), Some("app"));
    }
}

#[test]
fn parsed_samples_hold_what_the_text_says() {
    let text = "# TYPE a counter\na 1\n# TYPE b gauge\nb{x=\"y\"} 2.5\nc 3\n";
    let samples = scrape_of(text);
    assert_eq!(samples.len(), 3);
    assert_eq!(samples[0].metric, "a");
    assert!(matches!(samples[0].value, Reading::Counter(v) if v == 1.0f64.to_bits()));
    assert!(matches!(samples[1].value, Reading::Gauge(v) if v == 2.5f64.to_bits()));
    assert_eq!(samples[1].labels, vec![("x".to_string(), "y".to_string())]);
    assert!(matches!(samples[2].value, Reading::Untyped(v) if v == 3.0f64.to_bits()));
    assert!(scrape_of("what is this?\n\n").is_empty());
}

#[test]
fn histogram_buckets_become_le_counters() {
    let text = "# TYPE http_h histogram\nhttp_h_bucket{le=\"0.5\"} 10\nhttp_h_bucket{le=\"+Inf\"} 12\nhttp_h_sum 99\nhttp_h_count 12\n";
    let (planned, dropped) = plan_samples("app", &scrape_of(text), &allow(), 100);
    assert_eq!(dropped, 0);
    let buckets = find(&planned, "http_h_bucket");
    assert_eq!(buckets.len(), 2);
    let les: Vec<String> = buckets.iter().map(|b| label(b, "le").unwrap()).collect();
    assert!(les.contains(&"0.5".to_string()));
    assert!(les.contains(&"+Inf".to_string()));
    assert!(buckets.iter().all(|b| b.kind == MetricType::Counter));
    assert_eq!(buckets[0].value, 10.0f64.to_bits());
    assert_eq!(find(&planned, "http_h_sum").len(), 1);
    assert_eq!(find(&planned, "http_h_count").len(), 1);
}

#[test]
fn summary_quantiles_become_quantile_counters() {
    let text = "# TYPE http_s summary\nhttp_s{quantile=\"0.5\"} 7\nhttp_s_sum 70\n";
    let (planned, _) = plan_samples("app", &scrape_of(text), &allow(), 100);
    let qs = find(&planned, "http_s");
    assert_eq!(qs.len(), 1);
    assert_eq!(label(qs[0], "quantile").as_deref(), Some("0.5"));
    assert_eq!(qs[0].kind, MetricType::Counter);
}

#[test]
fn visitor_series_pass_allowlist_and_absence_is_empty() {
    let text = "# TYPE visitors_total counter\nvisitors_total{region=\"DE\"} 5\n\
                # TYPE unique_visitors_estimate gauge\nunique_visitors_estimate{region=\"DE\"} 4\n";
    let (planned, _) = plan_samples("app", &scrape_of(text), &allow(), 100);
    assert_eq!(planned.len(), 2);
    assert_eq!(planned[0].kind, MetricType::Counter);
    assert_eq!(planned[1].kind, MetricType::Gauge);
    assert_eq!(label(&planned[0], "region").as_deref(), Some("DE"));

    let (planned, dropped) = plan_samples(
        "plain",
        &scrape_of("# TYPE http_x counter\nhttp_x 1\n"),
        &allow(),
        100,
    );
    assert_eq!(dropped, 0);
    assert!(
        planned.iter().all(|s| !s.name.starts_with("visitor"))
            && planned.iter().all(|s| !s.name.starts_with("unique_"))
    );
}

#[test]
fn reserved_names_never_stored_from_scrapes() {
    let text = "tonggeret_dropped_total 0\ncollector_scrape_total{target=\"x\",status=\"ok\"} 1\nhttp_x 1\n";
    let (planned, _) = plan_samples("app", &scrape_of(text), &allow(), 100);
    assert_eq!(planned.len(), 1);
    assert_eq!(planned[0].name, "http_x");
    // Not even where the allowlist names them.
    let all = vec![String::new(), "collector_".to_string()];
    let (planned, _) = plan_samples("app", &scrape_of(text), &all, 100);
    assert_eq!(planned.len(), 1);
}

#[test]
fn labels_sorted_by_key_for_positional_registry() {
    let text = "http_x{status=\"200\",method=\"GET\",path=\"/\"} 1\n";
    let (planned, _) = plan_samples("app", &scrape_of(text), &allow(), 100);
    assert_eq!(planned.len(), 1);
    let keys: Vec<&str> = planned[0].labels.iter().map(|(k, _)| k.as_str()).collect();
    assert_eq!(keys, vec!["method", "path", "scrape_target", "status"]);
}

#[test]
fn scraped_target_label_stays_before_the_injected_one() {
    let text = "http_x{scrape_target=\"theirs\",a=\"1\"} 1\n";
    let (planned, _) = plan_samples("app", &scrape_of(text), &allow(), 100);
    assert_eq!(
        planned[0].labels,
        vec![
            ("a".to_string(), "1".to_string()),
            ("scrape_target".to_string(), "theirs".to_string()),
            ("scrape_target".to_string(), "app".to_string()),
        ]
    );
}

#[test]
fn cap_counts_overflow_as_dropped() {
    let text = "http_a 1\nhttp_b 2\nhttp_c 3\n";
    let (planned, dropped) = plan_samples("app", &scrape_of(text), &allow(), 2);
    assert_eq!(planned.len(), 2);
    assert_eq!(dropped, 1);
}

#[test]
fn nan_passthrough_and_float_spelling() {
    let format_float = |v: f64| format_value(v.to_bits(), &format!("{v}"));
    assert_eq!(format_float(f64::NAN), "NaN");
    assert_eq!(format_float(f64::INFINITY), "+Inf");
    assert_eq!(format_float(f64::NEG_INFINITY), "-Inf");
    assert_eq!(format_float(0.5), "0.5");
    let text = "http_nan Nan\n";
    let (planned, _) = plan_samples("app", &scrape_of(text), &allow(), 100);
    assert_eq!(planned.len(), 1);
    assert!(f64::from_bits(planned[0].value).is_nan());
}

#[test]
fn body_guards() {
    assert!(check_content_length(None, 10).is_ok());
    assert!(check_content_length(Some(10), 10).is_ok());
    let e = check_content_length(Some(11), 10).unwrap_err();
    assert_eq!(e.message(), "body exceeds 10 bytes");
    assert_eq!(accept_body("häß".as_bytes().to_vec(), 5).unwrap(), "häß");
    let e = accept_body("häß".as_bytes().to_vec(), 4).unwrap_err();
    assert!(matches!(e, FetchError::TooLarge(4)));
    let e = accept_body(vec![0x66, 0xff], 10).unwrap_err();
    assert!(matches!(e, FetchError::InvalidUtf8));
    assert_eq!(e.message(), "body is not valid UTF-8");
    assert_eq!(
        FetchError::Request("refused".to_string()).message(),
        "request failed: refused"
    );
}

fn app() -> TargetConfig {
    TargetConfig {
        name: "app".to_string(),
        url: "http://localhost:1/metrics".to_string(),
        allow: allow(),
    }
}

fn tracker() -> StatusTracker {
    StatusTracker::new(&vec![app()], 15, 30)
}

#[test]
fn cycle_stores_mirrors_and_counts() {
    let mut buffer = RecentBuffer::new(1);
    let mut tracker = tracker();
    let body = "http_a 1\nhttp_b 2\nhttp_c 3\n".to_string();
    let out = scrape_once(&app(), Ok(body), 2, 77, &mut buffer, &mut tracker, 9, 1700);
    assert_eq!(out.status, ScrapeStatus::Success);
    assert_eq!(out.planned.len(), 2);
    assert_eq!(out.dropped, 1);
    assert_eq!(buffer.names(), vec!["http_b".to_string()]);
    let counts: Vec<(&str, usize, usize)> =
        out.counts.iter().map(|c| (c.name.as_str(), c.amount, c.labels.len())).collect();
    assert_eq!(
        counts,
        vec![
            ("collector_buffer_dropped_total", 1, 2),
            ("collector_samples_stored_total", 2, 1),
            ("collector_samples_dropped_total", 1, 2),
            ("collector_scrape_total", 1, 2),
        ]
    );
    assert_eq!(out.counts[3].labels[1], ("status".to_string(), "ok".to_string()));
    let seen = &tracker.snapshot(0, 1, 0).targets[0];
    assert_eq!((seen.last_samples, seen.last_duration_ms), (2, 9));
    assert_eq!((seen.last_scrape_ts, seen.totals.ok), (Some(1700), 1));
}

#[test]
fn cycle_failures_are_counted_and_store_nothing() {
    let mut buffer = RecentBuffer::new(10);
    let mut tracker = tracker();
    let fetched = Err(FetchError::InvalidUtf8);
    let out = scrape_once(&app(), fetched, 2, 77, &mut buffer, &mut tracker, 9, 1700);
    let seen = &tracker.snapshot(0, 1, 0).targets[0];
    assert_eq!(seen.last_status.as_deref(), Some("fetch_error"));
    assert_eq!((seen.consecutive_failures, seen.last_samples), (1, 0));
    assert_eq!(out.status, ScrapeStatus::FetchError);
    assert!(out.planned.is_empty());
    assert_eq!(out.counts.len(), 1);
    assert_eq!(out.counts[0].labels[1].1, "fetch_error");
    let unparsed = Scraped::Unparsed("broken".to_string());
    let out = finish_scrape(&app(), &unparsed, 2, 77, &mut buffer);
    assert_eq!(out.status, ScrapeStatus::ParseError);
    assert_eq!(out.counts[0].labels[1].1, "parse_error");
    assert_eq!(buffer.occupancy(), (0, 10));
}

#[test]
fn reading_order_makes_no_difference() {
    let plan = |text: &str| plan_samples("app", &scrape_of(text), &allow(), 100).0;
    let a = plan("http_x{b=\"2\",a=\"1\",z=\"3\"} 1\n");
    let b = plan("http_x{z=\"3\",b=\"2\",a=\"1\"} 1\n");
    assert_eq!(a[0].labels, b[0].labels);
    let keys = |p: &PlannedSample| -> Vec<String> {
        p.labels.iter().map(|(k, _)| k.clone()).collect()
    };
    let c = plan("http_x{z=\"9\",a=\"8\",b=\"7\"} 1\n");
    assert_eq!(keys(&a[0]), keys(&c[0]));
    // Histograms of one text come in no fixed order, but they are the same ones.
    let text = "# TYPE http_h histogram\nhttp_h_bucket{p=\"1\",le=\"1\"} 1\nhttp_h_bucket{p=\"2\",le=\"1\"} 2\nhttp_h_bucket{p=\"3\",le=\"1\"} 3\n";
    let sorted = |mut list: Vec<PlannedSample>| {
        list.sort_by_key(|p| p.value);
        list.into_iter().map(|p| (p.name, p.value, p.labels)).collect::<Vec<_>>()
    };
    assert_eq!(sorted(plan(text)), sorted(plan(text)));
    assert_eq!(plan(text).len(), 3);
}

#[test]
fn own_series_stay_apart_whatever_they_are_stored_as() {
    let all = vec![String::new(), "coll".to_string()];
    let text = "# TYPE collector histogram\ncollector_bucket{le=\"1\"} 1\n";
    let (planned, dropped) = plan_samples("app", &scrape_of(text), &all, 100);
    assert!(planned.is_empty());
    assert_eq!(dropped, 0);
    let (planned, _) = plan_samples("app", &scrape_of("collector 1\n"), &all, 100);
    assert_eq!(planned[0].name, "collector");
    let (planned, _) = plan_samples("app", &scrape_of("collector_bucket 1\n"), &all, 100);
    assert!(planned.is_empty());
}

#[test]
fn added_labels_are_sorted_too() {
    let keys = |p: &PlannedSample| -> Vec<String> {
        p.labels.iter().map(|(k, _)| k.clone()).collect()
    };
    let plan = |text: &str| plan_samples("app", &scrape_of(text), &allow(), 100).0;
    let bucket = plan("# TYPE http_h histogram\nhttp_h_bucket{le=\"1\",z=\"2\"} 1\n");
    assert_eq!(keys(&bucket[0]), vec!["le", "scrape_target", "z"]);
    let untyped = plan("http_h_bucket{z=\"3\",le=\"1\"} 1\n");
    assert_eq!(bucket[0].name, untyped[0].name);
    assert_eq!(keys(&bucket[0]), keys(&untyped[0]));
    let quantile = plan("# TYPE http_s summary\nhttp_s{quantile=\"0.5\"} 7\n");
    assert_eq!(keys(&quantile[0]), vec!["quantile", "scrape_target"]);
}

#[test]
fn scraped_samples_are_queried_at_once() {
    let mut buffer = RecentBuffer::new(10);
    let body = "# TYPE http_g gauge\nhttp_g{p=\"/\"} 2.5\n".to_string();
    scrape_once(&app(), Ok(body), 5, 77, &mut buffer, &mut tracker(), 9, 1700);
    let out = buffer
        .query(&RangeQuery {
            name: "http_g".to_string(),
            matchers: vec![("scrape_target".to_string(), "app".to_string())],
            start_micros: 70,
            end_micros: 80,
            step_micros: 5,
        })
        .unwrap();
    assert_eq!(out.series.len(), 1);
    assert_eq!(out.series[0].buckets[&1], (77, 2.5f64.to_bits()));
}
