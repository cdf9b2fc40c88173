use devapp::config::{
    CommandReadyConfig, DelayReadyConfig, DependencyCondition, DevappConfig, HttpReadyConfig,
    LogReadyConfig, ProcessConfig, ProcessKind, ReadyConfig,
};
use devapp::config_loader::{check_http_readiness_url, process_dependency_statuses, validate_graph};
use indexmap::IndexMap;

fn process(kind: ProcessKind, cmd: &str, deps: &[(&str, DependencyCondition)], ready: Option<ReadyConfig>) -> ProcessConfig {
    let mut depends_on = IndexMap::new();
    for (name, condition) in deps {
        depends_on.insert(name.to_string(), *condition);
    }
    ProcessConfig {
        kind,
        cmd: cmd.to_string(),
        depends_on,
        ready,
    }
}

fn config(version: u32, processes: Vec<(&str, ProcessConfig)>) -> DevappConfig {
    let mut map = IndexMap::new();
    for (name, p) in processes {
        map.insert(name.to_string(), p);
    }
    DevappConfig {
        version,
        env: IndexMap::new(),
        processes: map,
    }
}

fn http(url: &str) -> Option<ReadyConfig> {
    Some(ReadyConfig::Http(HttpReadyConfig {
        url: url.to_string(),
        interval_ms: None,
        timeout_ms: None,
    }))
}

#[test]
fn rejects_unknown_dependency() {
    let cfg = config(
        1,
        vec![(
            "web",
            process(ProcessKind::Service, "deno task dev", &[("missing", DependencyCondition::Ready)], None),
        )],
    );
    let error = validate_graph(&cfg).expect_err("unknown dependency should fail");

    assert!(error
        .to_string()
        .contains("depends on unknown process `missing`"));
}

#[test]
fn rejects_dependency_cycle() {
    let cfg = config(
        1,
        vec![
            ("api", process(ProcessKind::Service, "cargo run", &[("web", DependencyCondition::Ready)], None)),
            ("web", process(ProcessKind::Service, "deno task dev", &[("api", DependencyCondition::Ready)], None)),
        ],
    );
    let error = validate_graph(&cfg).expect_err("cycle should fail");

    assert!(error.to_string().contains("dependency cycle detected"));
}

#[test]
fn rejects_unsupported_version() {
    let cfg = config(2, vec![("web", process(ProcessKind::Service, "deno task dev", &[], None))]);
    let error = cfg.validate_version().expect_err("unsupported version should fail");

    assert!(error.contains("unsupported config version 2"));
    assert_eq!(error, "unsupported config version 2, expected 1");
}

#[test]
fn rejects_relative_http_readiness_url() {
    let cfg = config(1, vec![("web", process(ProcessKind::Service, "deno task dev", &[], http("/health")))]);
    let error = validate_graph(&cfg).expect_err("relative readiness URL should fail");

    assert!(error.to_string().contains("invalid http readiness URL"));
}

#[test]
fn accepts_realistic_configuration() {
    let cfg = config(
        1,
        vec![
            ("setup", process(ProcessKind::Task, "deno task check", &[], None)),
            (
                "web",
                process(
                    ProcessKind::Service,
                    "deno task dev",
                    &[("setup", DependencyCondition::Success)],
                    http("http://127.0.0.1:5173/health"),
                ),
            ),
        ],
    );
    assert!(cfg.validate_version().is_ok());
    assert!(validate_graph(&cfg).is_ok());
    assert_eq!(cfg.processes["web"].depends_on["setup"], DependencyCondition::Success);
}

#[test]
fn rejects_empty_configuration() {
    let cfg = config(1, vec![]);
    let error = validate_graph(&cfg).expect_err("no process should fail");
    assert_eq!(
        error.to_string(),
        "validation error: configuration must declare at least one process"
    );
}

#[test]
fn rejects_blank_names_and_commands() {
    let cfg = config(1, vec![(" \t", process(ProcessKind::Task, "make", &[], None))]);
    assert_eq!(
        validate_graph(&cfg).unwrap_err().to_string(),
        "validation error: process name cannot be empty"
    );
    let cfg = config(1, vec![("build", process(ProcessKind::Task, "  \n", &[], None))]);
    assert_eq!(
        validate_graph(&cfg).unwrap_err().to_string(),
        "validation error: process `build` must declare a non-empty cmd"
    );
}

#[test]
fn rejects_blank_log_pattern_and_readiness_command() {
    let log = Some(ReadyConfig::Log(LogReadyConfig {
        pattern: "   ".to_string(),
        regex: false,
        timeout_ms: None,
    }));
    let cfg = config(1, vec![("api", process(ProcessKind::Service, "run", &[], log))]);
    assert_eq!(
        validate_graph(&cfg).unwrap_err().to_string(),
        "validation error: process `api` log readiness pattern cannot be empty"
    );
    let command = Some(ReadyConfig::Command(CommandReadyConfig {
        cmd: "".to_string(),
        interval_ms: Some(500),
        timeout_ms: None,
    }));
    let cfg = config(1, vec![("api", process(ProcessKind::Service, "run", &[], command))]);
    assert_eq!(
        validate_graph(&cfg).unwrap_err().to_string(),
        "validation error: process `api` command readiness cmd cannot be empty"
    );
    let delay = Some(ReadyConfig::Delay(DelayReadyConfig { duration_ms: 2000 }));
    let cfg = config(1, vec![("api", process(ProcessKind::Service, "run", &[], delay))]);
    assert!(validate_graph(&cfg).is_ok());
}

#[test]
fn rejects_non_http_readiness_url() {
    let cfg = config(1, vec![("web", process(ProcessKind::Service, "run", &[], http("ftp://example.com/health")))]);
    assert_eq!(
        validate_graph(&cfg).unwrap_err().to_string(),
        "validation error: process `web` http readiness URL must be an absolute http(s) URL"
    );
    assert!(validate_graph(&config(
        1,
        vec![("web", process(ProcessKind::Service, "run", &[], http("https://example.com/ready")))]
    ))
    .is_ok());
}

#[test]
fn http_readiness_check_follows_parse_outcome() {
    assert!(check_http_readiness_url("web", "http://h/x", Ok(("http".to_string(), Some("h".to_string())))).is_ok());
    assert_eq!(
        check_http_readiness_url("web", "http:x", Ok(("http".to_string(), None)))
            .unwrap_err()
            .to_string(),
        "validation error: process `web` http readiness URL must be an absolute http(s) URL"
    );
    assert_eq!(
        check_http_readiness_url("web", "::", Err("bad".to_string()))
            .unwrap_err()
            .to_string(),
        "validation error: process `web` has invalid http readiness URL `::`: bad"
    );
}

#[test]
fn reports_first_failing_process_in_order() {
    let cfg = config(
        1,
        vec![
            ("a", process(ProcessKind::Task, "ok", &[("nope", DependencyCondition::Success)], None)),
            ("b", process(ProcessKind::Task, " ", &[], None)),
        ],
    );
    assert_eq!(
        validate_graph(&cfg).unwrap_err().to_string(),
        "validation error: process `a` depends on unknown process `nope`"
    );
}

#[test]
fn detects_self_dependency_and_long_cycle() {
    let cfg = config(1, vec![("a", process(ProcessKind::Task, "x", &[("a", DependencyCondition::Success)], None))]);
    assert_eq!(
        validate_graph(&cfg).unwrap_err().to_string(),
        "validation error: dependency cycle detected at process `a`"
    );
    let cfg = config(
        1,
        vec![
            ("a", process(ProcessKind::Task, "x", &[("b", DependencyCondition::Success)], None)),
            ("b", process(ProcessKind::Task, "x", &[("c", DependencyCondition::Success)], None)),
            ("c", process(ProcessKind::Task, "x", &[("a", DependencyCondition::Success)], None)),
        ],
    );
    assert_eq!(
        validate_graph(&cfg).unwrap_err().to_string(),
        "validation error: dependency cycle detected at process `a`"
    );
}

#[test]
fn accepts_diamond_dependencies() {
    let cfg = config(
        1,
        vec![
            ("top", process(ProcessKind::Service, "x", &[("l", DependencyCondition::Ready), ("r", DependencyCondition::Ready)], None)),
            ("l", process(ProcessKind::Service, "x", &[("base", DependencyCondition::Success)], None)),
            ("r", process(ProcessKind::Service, "x", &[("base", DependencyCondition::Success)], None)),
            ("base", process(ProcessKind::Task, "x", &[], None)),
        ],
    );
    assert!(validate_graph(&cfg).is_ok());
}

#[test]
fn lists_dependency_names_per_process() {
    let cfg = config(
        1,
        vec![
            ("setup", process(ProcessKind::Task, "x", &[], None)),
            ("web", process(ProcessKind::Service, "x", &[("setup", DependencyCondition::Success), ("db", DependencyCondition::Ready)], None)),
        ],
    );
    let statuses = process_dependency_statuses(&cfg);
    assert_eq!(statuses.len(), 2);
    assert_eq!(statuses[0].0, "setup");
    assert!(statuses[0].1.is_empty());
    assert_eq!(statuses[1].0, "web");
    assert_eq!(statuses[1].1, vec!["setup".to_string(), "db".to_string()]);
}

#[test]
fn cycle_error_names_the_process_met_again() {
    let cfg = config(
        1,
        vec![
            ("ok", process(ProcessKind::Task, "x", &[], None)),
            ("a", process(ProcessKind::Task, "x", &[("b", DependencyCondition::Success)], None)),
            ("b", process(ProcessKind::Task, "x", &[("ok", DependencyCondition::Success), ("c", DependencyCondition::Success)], None)),
            ("c", process(ProcessKind::Task, "x", &[("b", DependencyCondition::Success)], None)),
        ],
    );
    assert_eq!(
        validate_graph(&cfg).unwrap_err().to_string(),
        "validation error: dependency cycle detected at process `b`"
    );
}
