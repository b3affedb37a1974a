//! Configuration and command line.
use tonggeret_dashboard::cli::{parse_args, role_name, Role};
use tonggeret_dashboard::config::{
    finish_load, Config, ConfigError, ConfigFile, FjallEntry, FjallSection, Overrides, StateEntry,
    StateSection, TargetConfig, TargetEntry,
};

fn minimal_toml() -> &'static str {
    "[[targets]]\nname = \"app\"\nurl = \"http://localhost:8000/metrics\"\n"
}

fn text(t: &toml::Table, key: &str) -> Option<String> {
    t.get(key).and_then(|v| v.as_str()).map(str::to_string)
}

fn number(t: &toml::Table, key: &str) -> Option<u64> {
    t.get(key).and_then(|v| v.as_integer()).map(|n| n as u64)
}

fn size(t: &toml::Table, key: &str) -> Option<usize> {
    number(t, key).map(|n| n as usize)
}

fn texts(t: &toml::Table, key: &str) -> Option<Vec<String>> {
    t.get(key).and_then(|v| v.as_array()).map(|a| {
        a.iter().map(|v| v.as_str().unwrap().to_string()).collect()
    })
}

fn file(source: &str) -> ConfigFile {
    let t: toml::Table = toml::from_str(source).unwrap();
    let section = |key: &str| t.get(key).and_then(|v| v.as_table()).cloned();
    ConfigFile {
        interval_secs: number(&t, "interval_secs"),
        listen: text(&t, "listen"),
        static_dir: text(&t, "static_dir"),
        max_samples_per_scrape: size(&t, "max_samples_per_scrape"),
        recent_buffer_samples: size(&t, "recent_buffer_samples"),
        max_body_bytes: size(&t, "max_body_bytes"),
        queue_capacity: size(&t, "queue_capacity"),
        control_token: text(&t, "control_token"),
        upstream: text(&t, "upstream"),
        targets: t.get("targets").and_then(|v| v.as_array()).map(|a| {
            a.iter()
                .map(|v| {
                    let e = v.as_table().unwrap();
                    TargetEntry {
                        name: text(e, "name").unwrap(),
                        url: text(e, "url").unwrap(),
                        allow: texts(e, "allow"),
                    }
                })
                .collect()
        }),
        fjall: section("fjall").map(|e| FjallEntry {
            dir: text(&e, "dir"),
            cold_dir: text(&e, "cold_dir"),
            retention_days: number(&e, "retention_days"),
            cold_purge_days: number(&e, "cold_purge_days"),
        }),
        state: section("state").map(|e| StateEntry {
            targets_file: text(&e, "targets_file"),
            max_dynamic_targets: size(&e, "max_dynamic_targets"),
        }),
    }
}

fn minimal() -> Config {
    file(minimal_toml()).resolve()
}

#[test]
fn defaults_apply_to_minimal_config() {
    let cfg = minimal();
    assert_eq!(cfg.interval_secs, 15);
    assert_eq!(cfg.listen, "0.0.0.0:8080");
    assert_eq!(cfg.max_samples_per_scrape, 5_000);
    assert_eq!(cfg.recent_buffer_samples, 20_000);
    assert_eq!(cfg.upstream, "http://127.0.0.1:8081");
    assert_eq!(cfg.queue_capacity, 256);
    assert_eq!(cfg.state.max_dynamic_targets, 64);
    assert_eq!(cfg.state.targets_file, "./data/targets.json");
    assert!(cfg.control_token.is_none());
    assert_eq!(cfg.fjall.retention_days, 30);
    assert_eq!(cfg.fjall.cold_purge_days, 32);
    assert!(cfg.targets[0].allow.iter().any(|p| p == "visitors_"));
    assert!(cfg.targets[0].allow.iter().any(|p| p == "unique_"));
    cfg.validate().unwrap();
    assert_eq!(cfg.static_dir, "dist");
    assert_eq!(cfg.max_body_bytes, 1_048_576);
    assert_eq!((cfg.fjall.dir.as_str(), cfg.fjall.cold_dir.as_str()), ("./data/fjall", "./data/cold"));
    assert_eq!(FjallSection::default().retention_days, 30);
    assert_eq!(StateSection::default().max_dynamic_targets, 64);
}

#[test]
fn given_fields_stay() {
    let cfg = file(
        "interval_secs = 7\nlisten = \"l\"\nqueue_capacity = 3\n[fjall]\nretention_days = 2\n\
         [state]\nmax_dynamic_targets = 5\n[[targets]]\nname = \"a\"\nurl = \"http://a\"\nallow = [\"x_\"]\n",
    )
    .resolve();
    assert_eq!((cfg.interval_secs, cfg.listen.as_str(), cfg.queue_capacity), (7, "l", 3));
    assert_eq!((cfg.fjall.retention_days, cfg.fjall.cold_purge_days), (2, 32));
    assert_eq!(cfg.state.max_dynamic_targets, 5);
    assert_eq!(cfg.state.targets_file, "./data/targets.json");
    assert_eq!(cfg.targets[0].allow, vec!["x_"]);
    assert!(file("").resolve().targets.is_empty());
}

#[test]
fn rejects_bad_configs() {
    let mut cfg = minimal();
    cfg.interval_secs = 0;
    assert!(cfg.validate().is_err());

    let mut cfg = minimal();
    cfg.recent_buffer_samples = 0;
    assert!(cfg.validate().is_err());

    let mut cfg = minimal();
    cfg.fjall.cold_purge_days = cfg.fjall.retention_days;
    assert!(cfg.validate().is_err());

    let mut cfg = minimal();
    cfg.targets.push(cfg.targets[0].clone());
    assert!(cfg.validate().is_err());

    let mut cfg = minimal();
    cfg.targets[0].url = "localhost:8000/metrics".to_string();
    assert!(cfg.validate().is_err());

    let mut cfg = minimal();
    cfg.upstream = "127.0.0.1:8081".to_string();
    assert!(cfg.validate().is_err());

    let mut cfg = minimal();
    cfg.queue_capacity = 0;
    assert!(cfg.validate().is_err());

    let mut cfg = minimal();
    cfg.state.max_dynamic_targets = 0;
    assert!(cfg.validate().is_err());
}

#[test]
fn every_fault_has_its_message() {
    let fault = |change: fn(&mut Config)| {
        let mut cfg = minimal();
        change(&mut cfg);
        cfg.validate().unwrap_err().message()
    };
    assert_eq!(fault(|c| c.interval_secs = 0), "invalid config: interval_secs must be > 0");
    assert_eq!(
        fault(|c| c.max_samples_per_scrape = 0),
        "invalid config: max_samples_per_scrape must be > 0"
    );
    assert_eq!(
        fault(|c| c.recent_buffer_samples = 0),
        "invalid config: recent_buffer_samples must be > 0"
    );
    assert_eq!(fault(|c| c.max_body_bytes = 1023), "invalid config: max_body_bytes must be >= 1024");
    assert_eq!(fault(|c| c.queue_capacity = 0), "invalid config: queue_capacity must be > 0");
    assert_eq!(
        fault(|c| c.state.max_dynamic_targets = 0),
        "invalid config: state.max_dynamic_targets must be > 0"
    );
    assert_eq!(
        fault(|c| c.upstream = "x".to_string()),
        "invalid config: upstream must start with http(s)://"
    );
    assert_eq!(
        fault(|c| c.fjall.retention_days = 0),
        "invalid config: fjall.retention_days must be > 0"
    );
    assert_eq!(
        fault(|c| c.fjall.cold_purge_days = 30),
        "invalid config: fjall.cold_purge_days must exceed fjall.retention_days"
    );
    assert_eq!(
        fault(|c| c.targets[0].name = " ".to_string()),
        "invalid config: target name must not be empty"
    );
    assert_eq!(
        fault(|c| {
            let again = TargetConfig {
                name: "app".to_string(),
                url: "no".to_string(),
                allow: vec![],
            };
            c.targets.push(again);
        }),
        "invalid config: duplicate target name \"app\""
    );
    assert_eq!(
        fault(|c| c.targets[0].url = "ftp://x".to_string()),
        "invalid config: target \"app\" url must start with http(s)://"
    );
    let mut cfg = minimal();
    cfg.upstream = "  ".to_string();
    assert!(cfg.validate().is_ok());
    let load = ConfigError::Load {
        path: "./does-not-exist.toml".to_string(),
        detail: "gone".to_string(),
    };
    assert_eq!(load.message(), "config ./does-not-exist.toml: gone");
}

#[test]
fn environment_overrides_what_is_not_blank() {
    let env = Overrides {
        listen: Some("l".to_string()),
        fjall_dir: Some(" ".to_string()),
        upstream: None,
        control_token: Some("t".to_string()),
    };
    let cfg = finish_load(file(minimal_toml()), env).unwrap();
    assert_eq!(cfg.listen, "l");
    assert_eq!(cfg.fjall.dir, "./data/fjall");
    assert_eq!(cfg.upstream, "http://127.0.0.1:8081");
    assert_eq!(cfg.control_token.as_deref(), Some("t"));
    let env = Overrides {
        listen: None,
        fjall_dir: Some("f".to_string()),
        upstream: Some("bad".to_string()),
        control_token: None,
    };
    assert!(matches!(finish_load(file(minimal_toml()), env), Err(ConfigError::Invalid(_))));
}

#[test]
fn roles_and_paths() {
    let args = |a: &[&str]| parse_args(&a.iter().map(|s| s.to_string()).collect());
    assert_eq!(args(&[]), (Role::Worker { serve_ui: true }, "collector.toml".to_string()));
    assert_eq!(args(&["x.toml"]), (Role::Worker { serve_ui: true }, "x.toml".to_string()));
    assert_eq!(args(&["worker"]), (Role::Worker { serve_ui: false }, "collector.toml".to_string()));
    assert_eq!(args(&["worker", "w.toml"]), (Role::Worker { serve_ui: false }, "w.toml".to_string()));
    assert_eq!(args(&["serve", "s.toml", "z"]), (Role::Serve, "s.toml".to_string()));
    assert_eq!(role_name(Role::Serve), "collector dashboard");
    assert_eq!(role_name(Role::Worker { serve_ui: true }), "collector (single binary)");
    assert_eq!(role_name(Role::Worker { serve_ui: false }), "collector worker");
}
