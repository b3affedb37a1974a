//! Selector, range parameters, the buffer of recent samples and its answers.
use tonggeret_dashboard::api::{query_range, RangeParams};
use tonggeret_dashboard::clock;
use tonggeret_dashboard::matrix::render_matrix;
use tonggeret_dashboard::numbers::{format_value, INFINITY_BITS, ONE_BITS, SIGN_BIT};
use tonggeret_dashboard::query::{BufferedSample, QueryError, QueryOutcome, RangeQuery, RecentBuffer};
use tonggeret_dashboard::query::{DEFAULT_BUFFER_SAMPLES, MAX_POINTS};
use tonggeret_dashboard::range::{
    parse_range_query, parse_step, parse_time, step_number, Moment, Readings, Width,
    MAX_RANGE_BITS, MAX_RANGE_SECS, MIN_STEP_SECS,
};
use tonggeret_dashboard::selector::parse_selector;

fn sample(ts: u64, name: &str, value: f64, labels: &[(&str, &str)]) -> BufferedSample {
    BufferedSample {
        ts_micros: ts,
        name: name.to_string(),
        value: value.to_bits(),
        labels: labels.iter().map(|(k, v)| ((*k).to_string(), (*v).to_string())).collect(),
    }
}

fn step_secs(s: &str) -> Option<f64> {
    let (number, unit) = step_number(s);
    number.parse::<f64>().ok().map(|n| n * unit as f64)
}

fn step(s: &str) -> Result<f64, QueryError> {
    parse_step(s, step_secs(s).map(f64::to_bits)).map(f64::from_bits)
}

fn time(s: &str, param: &str) -> Result<f64, QueryError> {
    parse_time(s, param, s.trim().parse::<f64>().ok().map(f64::to_bits)).map(f64::from_bits)
}

fn moment(secs: f64, start: f64) -> Moment {
    Moment {
        secs: secs.to_bits(),
        micros: (secs * 1_000_000.0) as u64,
        since_start: (secs - start).to_bits(),
    }
}

fn readings(start: &str, end: &str, step: &str, now_micros: u64) -> Readings {
    let from = start.trim().parse::<f64>().ok();
    let origin = from.unwrap_or(0.0);
    Readings {
        start: from.map(|s| moment(s, origin)),
        end: end.trim().parse::<f64>().ok().map(|s| moment(s, origin)),
        step: step_secs(step).map(|s| Width {
            secs: s.to_bits(),
            micros: (s * 1_000_000.0) as u64,
        }),
        now: moment(now_micros as f64 / 1_000_000.0, origin),
    }
}

fn range(query: &str, start: &str, end: &str, step: &str, now: u64) -> Result<RangeQuery, QueryError> {
    parse_range_query(query, start, end, step, &readings(start, end, step, now))
}

#[test]
fn selector_bare_name_and_braces() {
    assert_eq!(parse_selector("http_x").unwrap(), ("http_x".to_string(), vec![]));
    assert_eq!(
        parse_selector("{__name__=\"http_x\",method=\"GET\"}").unwrap(),
        ("http_x".to_string(), vec![("method".to_string(), "GET".to_string())])
    );
    assert_eq!(parse_selector("  { __name__ = \"a\" } ").unwrap().0, "a".to_string());
}

#[test]
fn selector_rejects_non_exact_matchers() {
    assert!(parse_selector("").is_err());
    for bad in [
        "{method=~\"G.*\"}",
        "{__name__=\"a\",k!=\"v\"}",
        "{__name__=\"a\",k!~\"v\"}",
        "{method=\"GET\"}",
        "{__name__=x}",
        "http{x}",
    ] {
        let err = parse_selector(bad).unwrap_err();
        let msg = err.message();
        assert!(
            msg.contains("exact")
                || msg.contains("requires a metric name")
                || msg.contains("malformed")
                || msg.contains("invalid"),
            "{bad}: unexpected message {msg}"
        );
    }
}

#[test]
fn selector_messages_are_exact() {
    let message = |s: &str| parse_selector(s).unwrap_err().message().to_string();
    assert_eq!(message("  "), "missing query parameter");
    assert_eq!(message(" ht\"tp "), "invalid metric name \"ht\\\"tp\"");
    assert_eq!(message("{a"), "malformed selector \"{a\": expected {...}");
    assert_eq!(message("{"), "malformed selector \"{\": expected {...}");
    assert_eq!(message("{a}"), "malformed matcher \"a\": expected k=\"v\"");
    assert_eq!(message("{a=\"}"), "malformed matcher \"a=\\\"\": value must be quoted");
    assert_eq!(message("{}"), "selector requires a metric name (bare name or __name__)");
    assert_eq!(message("{__name__=\"\"}"), "selector requires a metric name (bare name or __name__)");
    let exact = "only exact = matchers are supported (no =~, !=, !~)";
    assert_eq!(message("{=\"v\"}"), exact);
    assert_eq!(message("{a! =\"v\"}"), exact);
    assert_eq!(message("{a=!\"v\"}"), exact);
}

#[test]
fn selector_last_name_wins_and_reads_back() {
    let (name, pairs) = parse_selector("{__name__=\"a\",k=\"v\",__name__=\"b\",l=\"\"}").unwrap();
    assert_eq!(name, "b");
    assert_eq!(
        pairs,
        vec![("k".to_string(), "v".to_string()), ("l".to_string(), String::new())]
    );
    assert_eq!(parse_selector(" up time ").unwrap().0, "up time");
}

#[test]
fn step_units_and_floor() {
    for (input, want) in [
        ("90", 90.0),
        ("30s", 30.0),
        ("5m", 300.0),
        ("2h", 7200.0),
        ("1d", 86_400.0),
        ("1w", 604_800.0),
        ("1.5m", 90.0),
    ] {
        let got = step(input).unwrap();
        assert!(
            (got - want).abs() <= f64::EPSILON * want.max(1.0),
            "{input}: got {got}, want {want}"
        );
    }
    assert!(step("0s").is_err());
    assert!(step("500ms").is_err());
    assert!(step("soon").is_err());
}

#[test]
fn step_messages_and_limits() {
    assert_eq!(step(" soon ").unwrap_err().message(), "invalid step \"soon\"");
    assert_eq!(step(" 0.5 ").unwrap_err().message(), "step must be >= 1s, got \"0.5\"");
    assert!(step("NaN").is_err());
    assert!(step("inf").is_err());
    assert!(step("-3").is_err());
    assert_eq!(step("1").unwrap(), 1.0);
    assert_eq!(step_number(" 1.5h "), ("1.5".to_string(), 3600));
    assert_eq!(step_number("w"), (String::new(), 604_800));
    assert_eq!(step_number(""), (String::new(), 1));
    assert_eq!(MIN_STEP_SECS, 1);
    assert_eq!(1.0f64.to_bits(), ONE_BITS);
    assert_eq!(f64::INFINITY.to_bits(), INFINITY_BITS);
    assert_eq!((-0.0f64).to_bits(), SIGN_BIT);
}

#[test]
fn time_accepts_only_finite_nonneg_seconds() {
    let got = time("1700000000", "start").unwrap();
    assert!((got - 1_700_000_000.0).abs() <= 1.0, "got {got}");
    let got = time("1700000000.5", "start").unwrap();
    assert!((got - 1_700_000_000.5).abs() <= 1.0, "got {got}");
    assert!(time("now", "start").is_err());
    assert!(time("-5", "start").is_err());
    assert!(time("NaN", "start").is_err());
}

#[test]
fn time_messages_and_zero() {
    assert_eq!(time("-0", "end").unwrap(), 0.0);
    assert!(time("inf", "end").is_err());
    assert_eq!(
        time(" now", "end").unwrap_err().message(),
        "invalid end \" now\": want unix seconds"
    );
}

#[test]
fn range_validation_clamps_end_and_caps_range() {
    let now = 2_000_000_000_000_000u64; // micros
    let q = range("m", "1999999990", "9999999999", "60", now).unwrap();
    assert_eq!(q.end_micros, now);
    assert!(range("m", "10", "5", "60", now).is_err());
    assert!(range("m", "0", "999999999", "60", now).is_err());
}

#[test]
fn range_faults_in_order() {
    let now = 2_000_000_000_000_000u64;
    let message = |q: &str, a: &str, b: &str, c: &str| {
        range(q, a, b, c, now).unwrap_err().message().to_string()
    };
    assert_eq!(message("", "x", "y", "z"), "missing query parameter");
    assert_eq!(message("m", "x", "y", "z"), "invalid start \"x\": want unix seconds");
    assert_eq!(message("m", "1", "y", "z"), "invalid end \"y\": want unix seconds");
    assert_eq!(message("m", "1", "2", "z"), "invalid step \"z\"");
    assert_eq!(message("m", "2", "2", "5m"), "end must be after start");
    assert_eq!(message("m", "0", "-0", "5m"), "end must be after start");
    assert_eq!(message("m", "3000000000", "4000000000", "5m"), "end must be after start");
    assert_eq!(message("m", "1", "604802", "5m"), "range exceeds 7 days");
    let q = range("m{", "1", "2", "1", now);
    assert!(q.is_err());
    let q = range("m", "1", "604801", "5m", now).unwrap();
    assert_eq!((q.start_micros, q.end_micros, q.step_micros), (1_000_000, 604_801_000_000, 300_000_000));
    assert_eq!((MAX_RANGE_SECS as f64).to_bits(), MAX_RANGE_BITS);
}

fn seeded() -> RecentBuffer {
    let mut b = RecentBuffer::new(100);
    b.push_batch(
        "app",
        &vec![
            sample(1_000_000, "http_x", 1.0, &[("a", "1")]),
            sample(2_000_000, "http_x", 2.0, &[("a", "1")]),
            sample(2_500_000, "http_x", 9.0, &[("a", "2")]),
            sample(3_000_000, "other", 5.0, &[]),
        ],
    );
    b
}

fn rq(name: &str, matchers: Vec<(String, String)>) -> RangeQuery {
    RangeQuery {
        name: name.to_string(),
        matchers,
        start_micros: 1_000_000,
        end_micros: 10_000_000,
        step_micros: 1_000_000,
    }
}

#[test]
fn query_groups_and_latest_per_bucket_wins() {
    let b = seeded();
    let out = b.query(&rq("http_x", vec![])).unwrap();
    assert!(!out.clamped);
    assert_eq!(out.series.len(), 2);
    let g1 = out
        .series
        .iter()
        .find(|g| g.labels == [("a".to_string(), "1".to_string())])
        .unwrap();
    assert_eq!(g1.buckets.len(), 2);
    assert_eq!(g1.buckets[&1], (2_000_000, 2.0f64.to_bits()));
    let wide = RangeQuery {
        step_micros: 60_000_000,
        ..rq("http_x", vec![])
    };
    let out = b.query(&wide).unwrap();
    let g1 = out
        .series
        .iter()
        .find(|g| g.labels == [("a".to_string(), "1".to_string())])
        .unwrap();
    assert_eq!(g1.buckets.len(), 1);
    assert_eq!(g1.buckets[&0], (2_000_000, 2.0f64.to_bits()));
}

#[test]
fn query_keeps_the_later_time_and_the_later_entry() {
    let mut b = RecentBuffer::new(10);
    b.push_batch(
        "app",
        &vec![
            sample(3_000_000, "m", 1.0, &[]),
            sample(2_000_000, "m", 2.0, &[]),
            sample(3_000_000, "m", 3.0, &[]),
        ],
    );
    let wide = RangeQuery {
        step_micros: 60_000_000,
        ..rq("m", vec![])
    };
    let out = b.query(&wide).unwrap();
    assert_eq!(out.series[0].buckets[&0], (3_000_000, 3.0f64.to_bits()));
}

#[test]
fn query_matchers_filter_and_empty_is_success() {
    let b = seeded();
    let out = b.query(&rq("http_x", vec![("a".to_string(), "2".to_string())])).unwrap();
    assert_eq!(out.series.len(), 1);
    let out = b.query(&rq("missing", vec![])).unwrap();
    assert!(out.series.is_empty());
}

#[test]
fn query_clamps_and_caps_points() {
    let b = seeded();
    let out = b
        .query(&RangeQuery {
            start_micros: 1_000_000,
            ..rq("http_x", vec![])
        })
        .unwrap();
    assert!(!out.clamped);
    let out = b
        .query(&RangeQuery {
            start_micros: 0,
            end_micros: 500_000,
            ..rq("http_x", vec![])
        })
        .unwrap();
    assert!(out.clamped);
    assert!(out.series.is_empty());
}

#[test]
fn too_many_points_are_an_error_not_a_truncation() {
    let mut b = RecentBuffer::new(DEFAULT_BUFFER_SAMPLES);
    let many: Vec<BufferedSample> =
        (0..=(MAX_POINTS as u64)).map(|i| sample(i, "m", 1.0, &[])).collect();
    b.push_batch("app", &many);
    let fine = RangeQuery {
        start_micros: 0,
        step_micros: 1,
        ..rq("m", vec![])
    };
    assert_eq!(
        b.query(&fine).unwrap_err().message(),
        "query would return 10001 points (limit 10000); increase step"
    );
    let coarse = RangeQuery { step_micros: 2, ..fine };
    assert_eq!(b.query(&coarse).unwrap().series[0].buckets.len(), 5001);
}

#[test]
fn buffer_drops_oldest_past_capacity() {
    let mut b = RecentBuffer::new(2);
    b.push_batch(
        "app",
        &vec![
            sample(1, "m", 1.0, &[]),
            sample(2, "m", 2.0, &[]),
            sample(3, "m", 3.0, &[]),
        ],
    );
    assert_eq!(b.occupancy(), (2, 2));
    let out = b
        .query(&RangeQuery {
            start_micros: 0,
            step_micros: 1,
            ..rq("m", vec![])
        })
        .unwrap();
    let vals: Vec<f64> =
        out.series[0].buckets.values().map(|(_, v)| f64::from_bits(*v)).collect();
    assert_eq!(vals, vec![2.0, 3.0]);
}

#[test]
fn evictions_are_counted() {
    let mut b = RecentBuffer::new(2);
    assert!(b.push_batch("app", &vec![sample(1, "m", 1.0, &[])]).is_none());
    let count = b
        .push_batch(
            "app",
            &vec![
                sample(2, "m", 2.0, &[]),
                sample(3, "m", 3.0, &[]),
                sample(4, "m", 4.0, &[]),
                sample(5, "m", 5.0, &[]),
            ],
        )
        .unwrap();
    assert_eq!(count.name, "collector_buffer_dropped_total");
    assert_eq!(count.amount, 3);
    assert_eq!(
        count.labels,
        vec![
            ("target".to_string(), "app".to_string()),
            ("reason".to_string(), "over_cap".to_string()),
        ]
    );
    assert_eq!(RecentBuffer::new(0).occupancy(), (0, 1));
}

#[test]
fn value_spelling_matches_prometheus() {
    let spell = |v: f64| format_value(v.to_bits(), &format!("{v}"));
    assert_eq!(spell(1.0), "1");
    assert_eq!(spell(0.5), "0.5");
    assert_eq!(spell(f64::NAN), "NaN");
    assert_eq!(spell(f64::INFINITY), "+Inf");
    assert_eq!(spell(f64::NEG_INFINITY), "-Inf");
    assert_eq!(spell(-2.5), "-2.5");
    assert_eq!(format_value((-f64::NAN).to_bits(), "x"), "NaN");
}

#[test]
fn names_lists_distinct_sorted_series() {
    let b = seeded();
    assert_eq!(b.names(), vec!["http_x".to_string(), "other".to_string()]);
    assert!(RecentBuffer::new(10).names().is_empty());
}

#[test]
fn matrix_shape_and_warnings() {
    let b = seeded();
    let out = b.query(&rq("http_x", vec![])).unwrap();
    let body = render_matrix(&out);
    assert_eq!(body.status, "success");
    assert_eq!(body.result_type, "matrix");
    assert_eq!(body.result.len(), 2);
    let first = &body.result[0];
    assert_eq!(
        first.metric,
        vec![
            ("__name__".to_string(), "http_x".to_string()),
            ("a".to_string(), "1".to_string()),
        ]
    );
    assert_eq!(
        first.values,
        vec![(1_000_000, 1.0f64.to_bits()), (2_000_000, 2.0f64.to_bits())]
    );
    assert!(body.warnings.is_none());

    let clamped = QueryOutcome {
        series: vec![],
        clamped: true,
    };
    let body = render_matrix(&clamped);
    assert_eq!(
        body.warnings,
        Some(vec![
            "start predates the in-memory buffer; answer covers buffered data only".to_string()
        ])
    );
}

#[test]
fn matrix_labels_in_key_order_last_wins() {
    let mut b = RecentBuffer::new(10);
    b.push_batch(
        "app",
        &vec![sample(2_000_000, "m", 1.0, &[("z", "1"), ("__name__", "n"), ("a", "1"), ("a", "2")])],
    );
    let body = render_matrix(&b.query(&rq("m", vec![])).unwrap());
    assert_eq!(
        body.result[0].metric,
        vec![
            ("__name__".to_string(), "n".to_string()),
            ("a".to_string(), "2".to_string()),
            ("z".to_string(), "1".to_string()),
        ]
    );
}

fn params(query: &str, start: &str, end: &str, step: &str) -> RangeParams {
    RangeParams {
        has_match: false,
        query: query.to_string(),
        start: start.to_string(),
        end: end.to_string(),
        step: step.to_string(),
    }
}

#[test]
fn handler_answers_and_rejects() {
    let b = seeded();
    let r = readings("1", "4", "1", 10_000_000);
    let out = query_range(&b, &params("{__name__=\"http_x\",a=\"2\"}", "1", "4", "1"), &r).unwrap();
    assert_eq!(out.result.len(), 1);
    assert_eq!(out.result[0].values, vec![(2_500_000, 9.0f64.to_bits())]);
    let with_match = RangeParams {
        has_match: true,
        ..params("http_x", "1", "4", "1")
    };
    assert_eq!(
        query_range(&b, &with_match, &r).unwrap_err().message(),
        "match[] is not supported; put exact matchers in query={...}"
    );
    let r = readings("1", "4", "", 10_000_000);
    assert_eq!(
        query_range(&b, &params("http_x", "1", "4", ""), &r).unwrap_err().message(),
        "invalid step \"\""
    );
}

#[test]
fn clock_readings() {
    assert_eq!(clock::unix_secs(None), 0);
    assert_eq!(clock::unix_secs(Some((7, 9))), 7);
    assert_eq!(clock::unix_micros(None), 0);
    assert_eq!(clock::unix_micros(Some((7, 1_999))), 7_000_001);
    assert_eq!(clock::unix_micros(Some((u64::MAX, 0))), u64::MAX);
    // Well past 2020, and the two clocks agree.
    let secs = clock::now_unix();
    assert!(secs > 1_577_836_800);
    let micros = clock::now_micros();
    assert!(micros / 1_000_000 >= secs && micros / 1_000_000 <= secs + 2);
}

#[test]
fn every_listed_name_has_an_answer() {
    let b = seeded();
    for name in b.names() {
        let all = RangeQuery {
            start_micros: 0,
            end_micros: u64::MAX,
            ..rq(&name, vec![])
        };
        assert!(!b.query(&all).unwrap().series.is_empty());
    }
}

#[test]
fn one_more_matcher_narrows_the_answer() {
    let b = seeded();
    let all = b.query(&rq("http_x", vec![])).unwrap();
    let some = b.query(&rq("http_x", vec![("a".to_string(), "1".to_string())])).unwrap();
    let kept: Vec<_> = all
        .series
        .iter()
        .filter(|s| s.labels.contains(&("a".to_string(), "1".to_string())))
        .collect();
    assert_eq!(some.series.len(), kept.len());
    assert_eq!(some.series[0].labels, kept[0].labels);
    assert_eq!(some.series[0].buckets, kept[0].buckets);
    assert_eq!(some.clamped, all.clamped);
}

#[test]
fn selector_spacing_makes_no_difference() {
    let tight = parse_selector("{__name__=\"n\",k=\"v\",l=\" w \"}").unwrap();
    let loose =
        parse_selector(" \t{ __name__ = \"n\" ,\tk =\"v\" , l= \" w \"\n} ").unwrap();
    assert_eq!(tight, loose);
    assert_eq!(tight.1[1].1, " w ");
}
