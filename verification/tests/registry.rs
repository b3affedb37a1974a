//! The target registry.
use tonggeret_dashboard::config::TargetConfig;
use tonggeret_dashboard::targets::{
    validate_url, Mode, Origin, Target, TargetError, TargetRegistry, DEFAULT_ALLOW_PREFIXES,
};
use tonggeret_dashboard::urls::slug_from_url;

fn config_targets() -> Vec<TargetConfig> {
    vec![TargetConfig {
        name: "beruang".to_string(),
        url: "http://localhost:8000/metrics".to_string(),
        allow: vec!["http_".to_string()],
    }]
}

fn fresh(max: usize) -> TargetRegistry {
    TargetRegistry::load(&config_targets(), None, max, 0).unwrap()
}

fn reload(registry: &TargetRegistry) -> TargetRegistry {
    TargetRegistry::load(
        &config_targets(),
        Some(registry.dynamic_targets()),
        8,
        registry.next_number(),
    )
   .unwrap()
}

#[test]
fn loads_config_and_persists_dynamic() {
    let mut registry = fresh(8);
    assert_eq!(registry.list().len(), 1);
    assert!(registry.find_by_url("http://localhost:8000/metrics").is_some());

    let t = registry
        .add_dynamic(Some("orders"), "https://orders.example/metrics", None, Mode::Recurring)
        .unwrap();
    assert_eq!(t.name, "orders");
    assert!(t.enabled);
    assert_eq!(registry.dynamic_targets().len(), 1);

    let reloaded = reload(&registry);
    assert_eq!(reloaded.list().len(), 2);
    assert_eq!(reloaded.enabled_recurring().len(), 2);
}

#[test]
fn once_targets_are_not_swept() {
    let mut registry = fresh(8);
    registry.add_dynamic(None, "https://once.example/metrics", None, Mode::Once).unwrap();
    let recurring: Vec<String> =
        registry.enabled_recurring().into_iter().map(|t| t.name).collect();
    assert_eq!(recurring, vec!["beruang".to_string()]);
}

#[test]
fn rejects_bad_and_duplicate_urls() {
    let mut registry = fresh(8);
    assert!(registry.add_dynamic(None, "ftp://x", None, Mode::Once).is_err());
    assert!(registry
        .add_dynamic(None, "http://localhost:8000/metrics", None, Mode::Once)
        .is_err());
    registry.add_dynamic(None, "https://a.example/metrics", None, Mode::Once).unwrap();
    assert!(registry
        .add_dynamic(None, "https://a.example/metrics", None, Mode::Recurring)
        .is_err());
}

#[test]
fn slug_collision_gets_suffix() {
    let mut registry = fresh(8);
    let a = registry.add_dynamic(None, "https://same.example/a", None, Mode::Once).unwrap();
    let b = registry.add_dynamic(None, "https://same.example/b", None, Mode::Once).unwrap();
    assert_eq!(a.name, "same.example");
    assert_eq!(b.name, "same.example-2");
    let c = registry.add_dynamic(Some(" "), "https://same.example/c", None, Mode::Once).unwrap();
    assert_eq!(c.name, "same.example-3");
}

#[test]
fn config_targets_are_immutable_and_cap_applies() {
    let mut registry = fresh(1);
    assert!(registry.set_enabled("cfg:beruang", false).is_err());
    assert!(registry.remove("cfg:beruang").is_err());
    registry.add_dynamic(None, "https://a.example", None, Mode::Once).unwrap();
    let err = registry.add_dynamic(None, "https://b.example", None, Mode::Once).unwrap_err();
    assert!(matches!(err, TargetError::Limit(_)));
    assert_eq!(err.message(), "dynamic target limit reached (1)");
}

#[test]
fn enable_disable_and_remove_dynamic() {
    let mut registry = fresh(8);
    let t = registry.add_dynamic(None, "https://a.example", None, Mode::Recurring).unwrap();
    assert_eq!(registry.enabled_recurring().len(), 2);
    registry.set_enabled(&t.id, false).unwrap();
    assert_eq!(registry.enabled_recurring().len(), 1);
    let removed = registry.remove(&t.id).unwrap();
    assert_eq!(removed.id, t.id);
    assert_eq!(registry.list().len(), 1);
    let reloaded = reload(&registry);
    assert_eq!(reloaded.list().len(), 1);
}

fn message(e: TargetError) -> String {
    e.message()
}

#[test]
fn registry_messages() {
    let mut r = fresh(8);
    assert_eq!(message(r.add_dynamic(None, " ", None, Mode::Once).unwrap_err()), "url must not be empty");
    assert_eq!(
        message(r.add_dynamic(None, " ftp://x ", None, Mode::Once).unwrap_err()),
        "url must start with http(s)://: ftp://x"
    );
    assert_eq!(
        message(r.add_dynamic(None, "http://a b", None, Mode::Once).unwrap_err()),
        "url has whitespace: http://a b"
    );
    assert_eq!(
        message(r.add_dynamic(None, "http://localhost:8000/metrics ", None, Mode::Once).unwrap_err()),
        "url already configured: http://localhost:8000/metrics"
    );
    assert_eq!(
        message(r.add_dynamic(Some(" beruang "), "http://x", None, Mode::Once).unwrap_err()),
        "name already used: beruang"
    );
    assert_eq!(message(r.remove("zz").unwrap_err()), "unknown target zz");
    assert_eq!(message(r.remove("cfg:beruang").unwrap_err()), "config targets cannot be removed");
    assert_eq!(
        message(r.set_enabled("cfg:beruang", true).unwrap_err()),
        "config targets cannot be changed"
    );
    assert_eq!(TargetError::Persist("disk".to_string()).message(), "persist targets: disk");
}

#[test]
fn added_target_in_full() {
    let mut r = fresh(8);
    let t = r
        .add_dynamic_at(Some(" x "), " http://x/m ", Some(&vec![]), Mode::Once, 1700)
        .unwrap();
    assert_eq!((t.id.as_str(), t.name.as_str(), t.url.as_str()), ("t1700:0", "x", "http://x/m"));
    assert_eq!(t.allow, vec!["http_", "beruang_", "tonggeret_", "visitors_", "unique_"]);
    assert_eq!(t.allow, DEFAULT_ALLOW_PREFIXES);
    assert!(!t.enabled);
    assert_eq!((t.origin, t.mode, t.created_at), (Origin::Dynamic, Mode::Once, 1700));
    let u = r
        .add_dynamic_at(None, "http://y", Some(&vec!["y_".to_string()]), Mode::Recurring, 1701)
        .unwrap();
    assert_eq!((u.id.as_str(), u.name.as_str()), ("t1701:1", "y"));
    assert_eq!(u.allow, vec!["y_"]);
    assert_eq!(r.find_by_url(" http://y ").unwrap().id, "t1701:1");
    let c = u.scrape_config();
    assert_eq!((c.name.as_str(), c.url.as_str(), c.allow.len()), ("y", "http://y", 1));
    assert_eq!(Mode::default(), Mode::Recurring);
}

fn stored(name: &str, url: &str) -> Target {
    Target {
        id: "t1:0".to_string(),
        name: name.to_string(),
        url: url.to_string(),
        allow: vec![],
        enabled: true,
        origin: Origin::Config,
        mode: Mode::Recurring,
        created_at: 5,
    }
}

#[test]
fn stored_targets_are_dynamic_and_must_not_conflict() {
    let ok = TargetRegistry::load(&config_targets(), Some(vec![stored("s", "http://s")]), 8, 0).unwrap();
    assert_eq!(ok.list()[0].origin, Origin::Config);
    assert_eq!(ok.list()[0].id, "cfg:beruang");
    assert_eq!(ok.list()[1].origin, Origin::Dynamic);
    let e = TargetRegistry::load(&config_targets(), Some(vec![stored("beruang", "http://s")]), 8, 0)
        .unwrap_err();
    assert_eq!(e, "dynamic target beruang conflicts with a config target");
    let e = TargetRegistry::load(
        &config_targets(),
        Some(vec![stored("s", "http://s"), stored("t", "http://s")]),
        8,
        0,
    )
    .unwrap_err();
    assert_eq!(e, "dynamic target t conflicts with a config target");
    let e = TargetRegistry::load(
        &config_targets(),
        Some(vec![stored("s", "http://s"), stored("t", "http://t")]),
        1,
        0,
    )
    .unwrap_err();
    assert_eq!(e, "2 dynamic targets exceed max_dynamic_targets 1");
}

#[test]
fn urls_and_slugs() {
    assert_eq!(validate_url(" https://a/b?c ").unwrap(), "https://a/b?c");
    assert_eq!(slug_from_url("https://user:pw@Ex_ample.org:8080/x?y#z"), "Ex-ample.org");
    assert_eq!(slug_from_url("http://h?q"), "h");
    assert_eq!(slug_from_url("http://"), "target");
    assert_eq!(slug_from_url("plain"), "plain");
    assert_eq!(slug_from_url("http://a@b@c/d"), "c");
}

#[test]
fn adding_then_removing_brings_back_what_there_was() {
    let names = |r: &TargetRegistry| -> Vec<String> {
        r.list().into_iter().map(|t| t.name).collect()
    };
    let mut r = fresh(8);
    r.add_dynamic(Some("x"), "http://x", None, Mode::Recurring).unwrap();
    let before = names(&r);
    let t = r.add_dynamic(Some("y"), "http://y", None, Mode::Once).unwrap();
    assert_eq!(r.find_by_url("http://y").unwrap().name, "y");
    assert_eq!(r.remove(&t.id).unwrap().name, "y");
    assert_eq!(names(&r), before);
    assert!(r.find_by_url("http://y").is_none());
    assert_eq!(names(&reload(&r)), before);
}

#[test]
fn reloaded_registry_gives_out_no_id_again() {
    let mut r = fresh(8);
    let a = r.add_dynamic_at(None, "http://a", None, Mode::Once, 1700).unwrap();
    let mut again = reload(&r);
    let b = again.add_dynamic_at(None, "http://b", None, Mode::Once, 1700).unwrap();
    assert_eq!((a.id.as_str(), b.id.as_str()), ("t1700:0", "t1700:1"));
    assert_eq!(again.next_number(), 2);
}

#[test]
fn reload_after_many_changes() {
    let mut r = fresh(3);
    let a = r.add_dynamic(None, "http://a", None, Mode::Recurring).unwrap();
    r.add_dynamic(None, "http://b", Some(&vec!["b_".to_string()]), Mode::Once).unwrap();
    r.set_enabled(&a.id, false).unwrap();
    assert!(r.remove("cfg:beruang").is_err());
    let c = r.add_dynamic(Some("c"), "http://c", None, Mode::Once).unwrap();
    assert!(r.add_dynamic(None, "http://d", None, Mode::Once).is_err());
    r.remove(&c.id).unwrap();
    let show = |r: &TargetRegistry| -> Vec<String> {
        r.list().iter().map(|t| format!("{t:?}")).collect()
    };
    assert_eq!(show(&reload(&r)), show(&r));
    assert_eq!(r.list().len(), 3);
}
