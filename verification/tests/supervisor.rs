use devapp::config::{DelayReadyConfig, DependencyCondition, DevappConfig, ProcessConfig, ProcessKind, ReadyConfig};
use devapp::session::{ProcessStatus, Runtime};
use devapp::supervisor::{ActiveSession, ExitOutcome, OrchestratorState, ReadinessStep};
use indexmap::IndexMap;

struct TestRuntime;

impl Runtime for TestRuntime {
    type Child = u32;
    type KillSender = u32;
    type LogSender = String;
    type SessionData = ();
}

fn process(kind: ProcessKind, deps: &[(&str, DependencyCondition)]) -> ProcessConfig {
    let mut depends_on = IndexMap::new();
    for (name, condition) in deps {
        depends_on.insert(name.to_string(), *condition);
    }
    ProcessConfig {
        kind,
        cmd: "run".to_string(),
        depends_on,
        ready: None,
    }
}

fn web_project() -> DevappConfig {
    let mut processes = IndexMap::new();
    processes.insert("setup".to_string(), process(ProcessKind::Task, &[]));
    processes.insert(
        "api".to_string(),
        process(ProcessKind::Service, &[("setup", DependencyCondition::Success)]),
    );
    processes.insert(
        "web".to_string(),
        process(ProcessKind::Service, &[("api", DependencyCondition::Ready)]),
    );
    DevappConfig {
        version: 1,
        env: IndexMap::new(),
        processes,
    }
}

fn session() -> ActiveSession<TestRuntime> {
    let cfg = web_project();
    ActiveSession::new(
        9,
        "p1".to_string(),
        "demo".to_string(),
        "/tmp/demo".to_string(),
        1000,
        &cfg,
        100,
        vec!["l0".to_string(), "l1".to_string(), "l2".to_string()],
        (),
    )
}

fn status(s: &ActiveSession<TestRuntime>, name: &str) -> ProcessStatus {
    s.processes.iter().find(|p| p.snapshot.name == name).unwrap().snapshot.status
}

#[test]
fn new_session_lists_pending_processes_in_order() {
    let s = session();
    assert_eq!(s.snapshot.processes.len(), 3);
    let names: Vec<_> = s.snapshot.processes.iter().map(|p| p.name.clone()).collect();
    assert_eq!(names, vec!["setup", "api", "web"]);
    let ids: Vec<_> = s.processes.iter().map(|p| p.snapshot.runtime_id).collect();
    assert_eq!(ids, vec![100, 101, 102]);
    assert_eq!(s.processes[1].log_tx, "l1");
    assert_eq!(s.processes[1].config.depends_on.len(), 1);
    assert_eq!(s.processes[1].config.depends_on["setup"], DependencyCondition::Success);
    assert_eq!(s.processes[2].config.depends_on["api"], DependencyCondition::Ready);
    assert_eq!(s.processes[1].config.kind, ProcessKind::Service);
    assert!(s.snapshot.processes.iter().all(|p| p.status == ProcessStatus::Pending));
    assert_eq!(s.snapshot.stopped_at, None);
    assert!(!s.stop_requested);
}

#[test]
fn processes_start_in_dependency_order() {
    let mut s = session();
    assert_eq!(s.runnable_processes(), vec!["setup".to_string()]);

    assert_eq!(s.begin_spawn("setup", 2000).unwrap(), true);
    assert_eq!(status(&s, "setup"), ProcessStatus::Starting);
    assert!(matches!(s.record_spawned("setup", 1, Some(4242), 11).unwrap(), ReadinessStep::AwaitExit));
    assert_eq!(status(&s, "setup"), ProcessStatus::Running);
    assert!(s.runnable_processes().is_empty());
    assert_eq!(s.begin_spawn("setup", 2001).unwrap(), false);

    match s.record_process_exit("setup", Some(0), true, 3000).unwrap() {
        ExitOutcome::Continue => {}
        _ => panic!("a successful task lets the session continue"),
    }
    assert_eq!(status(&s, "setup"), ProcessStatus::Succeeded);
    assert_eq!(s.runnable_processes(), vec!["api".to_string()]);

    s.begin_spawn("api", 3001).unwrap();
    assert!(matches!(s.record_spawned("api", 2, None, 12).unwrap(), ReadinessStep::MarkReady));
    assert!(s.runnable_processes().is_empty());
    assert_eq!(s.mark_process_ready("api").unwrap(), true);
    assert_eq!(s.runnable_processes(), vec!["web".to_string()]);
    assert_eq!(s.snapshot.processes[1].status, ProcessStatus::Ready);
}

#[test]
fn failed_task_ends_session_with_message() {
    let mut s = session();
    s.begin_spawn("setup", 1).unwrap();
    s.record_spawned("setup", 1, None, 11).unwrap();
    match s.record_process_exit("setup", Some(1), false, 2).unwrap() {
        ExitOutcome::Failed(message) => assert_eq!(message, "process `setup` exited unexpectedly"),
        _ => panic!("a failed task ends the session"),
    }
    assert_eq!(status(&s, "setup"), ProcessStatus::Failed);
    assert_eq!(s.snapshot.processes[0].exit_code, Some(1));
    assert_eq!(s.snapshot.processes[0].exited_at, Some(2));
}

#[test]
fn service_exit_is_unexpected_even_when_successful() {
    let mut s = session();
    match s.record_process_exit("api", Some(0), true, 5).unwrap() {
        ExitOutcome::Failed(_) => {}
        _ => panic!("a service that stops ends the session"),
    }
    assert_eq!(status(&s, "api"), ProcessStatus::Failed);
}

#[test]
fn stopping_a_service_sends_its_kill_once() {
    let mut s = session();
    s.begin_spawn("api", 1).unwrap();
    s.record_spawned("api", 2, Some(7), 12).unwrap();
    assert_eq!(s.stop_process("api").unwrap(), Some(12));
    assert_eq!(status(&s, "api"), ProcessStatus::Stopping);
    assert_eq!(s.stop_process("api").unwrap(), None);
    match s.record_process_exit("api", None, false, 9).unwrap() {
        ExitOutcome::Terminated => {}
        _ => panic!("a terminated process needs nothing more"),
    }
    assert_eq!(status(&s, "api"), ProcessStatus::Stopped);
    assert_eq!(
        s.stop_process("setup").unwrap_err().to_string(),
        "runtime error: cannot stop a task process"
    );
    assert_eq!(
        s.stop_process("nope").unwrap_err().to_string(),
        "runtime error: unknown process `nope`"
    );
}

#[test]
fn restart_checks_and_reset() {
    let mut s = session();
    assert!(s.check_restartable("api").is_ok());
    assert_eq!(
        s.check_restartable("setup").unwrap_err().to_string(),
        "runtime error: cannot restart a task process"
    );
    s.begin_spawn("web", 1).unwrap();
    s.record_spawned("web", 3, None, 13).unwrap();
    s.record_process_failure("web", None, 4).unwrap();
    assert_eq!(status(&s, "web"), ProcessStatus::Failed);
    s.reset_process("web").unwrap();
    assert_eq!(status(&s, "web"), ProcessStatus::Pending);
    assert_eq!(s.snapshot.processes[2].exited_at, None);
    assert!(s.reset_process("ghost").is_err());
}

#[test]
fn readiness_is_ignored_while_terminating() {
    let mut s = session();
    s.begin_spawn("api", 1).unwrap();
    s.record_spawned("api", 2, None, 12).unwrap();
    s.stop_process("api").unwrap();
    assert_eq!(s.mark_process_ready("api").unwrap(), false);
    assert_eq!(status(&s, "api"), ProcessStatus::Stopping);
    assert_eq!(s.record_process_failure("api", Some(137), 3).unwrap(), true);
    assert_eq!(status(&s, "api"), ProcessStatus::Stopped);
}

#[test]
fn finishing_stops_everything() {
    let mut s = session();
    s.begin_spawn("setup", 1).unwrap();
    s.record_spawned("setup", 1, None, 11).unwrap();
    let kills = s.begin_finish(true, 50);
    assert_eq!(kills, vec![11]);
    assert!(s.stop_requested);
    assert_eq!(s.snapshot.stopped_at, Some(50));
    assert_eq!(status(&s, "setup"), ProcessStatus::Stopping);
    assert_eq!(status(&s, "api"), ProcessStatus::Stopped);
    assert_eq!(status(&s, "web"), ProcessStatus::Stopped);
    assert!(s.processes.iter().all(|p| p.terminating));
    assert!(s.runnable_processes().is_empty());
}

#[test]
fn failure_finish_keeps_pending_processes() {
    let mut s = session();
    let kills = s.begin_finish(false, 50);
    assert!(kills.is_empty());
    assert_eq!(status(&s, "api"), ProcessStatus::Pending);
}

#[test]
fn one_running_session_per_window() {
    let mut state: OrchestratorState<TestRuntime> = OrchestratorState::new();
    assert!(state.snapshot("main").is_none());
    assert_eq!(
        state.session_index("main").unwrap_err().to_string(),
        "runtime error: no session available"
    );
    let snap = state.start_session("main".to_string(), session()).unwrap();
    assert_eq!(snap.session_id, 9);
    let error = state.start_session("main".to_string(), session()).unwrap_err();
    assert_eq!(
        error.to_string(),
        "runtime error: a project session is already running in this window"
    );
    assert!(state.start_session("other".to_string(), session()).is_ok());
    let i = state.session_index("main").unwrap();
    state.sessions[i].session.begin_finish(true, 10);
    assert!(state.start_session("main".to_string(), session()).is_ok());
    assert_eq!(state.sessions.len(), 2);
    assert_eq!(state.snapshot("main").unwrap().stopped_at, None);
}

#[test]
fn service_with_readiness_check_waits_for_it() {
    let mut processes = IndexMap::new();
    let mut api = process(ProcessKind::Service, &[]);
    api.ready = Some(ReadyConfig::Delay(DelayReadyConfig { duration_ms: 2000 }));
    processes.insert("api".to_string(), api);
    let cfg = DevappConfig {
        version: 1,
        env: IndexMap::new(),
        processes,
    };
    let mut s: ActiveSession<TestRuntime> =
        ActiveSession::new(1, "p".to_string(), "n".to_string(), "/".to_string(), 0, &cfg, 0, vec!["l".to_string()], ());
    s.begin_spawn("api", 1).unwrap();
    match s.record_spawned("api", 5, None, 6).unwrap() {
        ReadinessStep::AwaitReadiness(ReadyConfig::Delay(d)) => assert_eq!(d.duration_ms, 2000),
        _ => panic!("a service with a readiness check waits for it"),
    }
    assert_eq!(status(&s, "api"), ProcessStatus::Running);
}
