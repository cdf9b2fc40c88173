use devapp::config::{DependencyCondition, ProcessConfig, ProcessKind};
use devapp::session::{
    begin_process_termination, dependencies_satisfied, reset_managed_process, sync_snapshot_process,
    ManagedProcess, ProcessSnapshot, ProcessStatus, RunSessionSnapshot, Runtime,
};
use indexmap::IndexMap;
use tokio::sync::mpsc;

struct TestRuntime;

impl Runtime for TestRuntime {
    type Child = ();
    type KillSender = mpsc::Sender<()>;
    type LogSender = ();
    type SessionData = ();
}

fn runtime_id_for(name: &str) -> u64 {
    name.bytes().fold(17u64, |acc, b| acc.wrapping_mul(31).wrapping_add(b as u64))
}

fn managed_process(name: &str, kind: ProcessKind, status: ProcessStatus) -> ManagedProcess<TestRuntime> {
    ManagedProcess {
        config: ProcessConfig {
            kind,
            cmd: format!("run {name}"),
            depends_on: IndexMap::new(),
            ready: None,
        },
        snapshot: ProcessSnapshot {
            runtime_id: runtime_id_for(name),
            name: name.to_string(),
            kind,
            status,
            started_at: None,
            exited_at: None,
            exit_code: None,
        },
        child: None,
        pid: None,
        kill_tx: None,
        log_tx: (),
        terminating: false,
    }
}

#[test]
fn dependencies_satisfied_requires_success_for_task_dependency() {
    let mut processes = vec![managed_process("setup", ProcessKind::Task, ProcessStatus::Succeeded)];
    let mut depends_on = IndexMap::new();
    depends_on.insert("setup".to_string(), DependencyCondition::Success);
    let config = ProcessConfig {
        kind: ProcessKind::Service,
        cmd: "deno task dev".to_string(),
        depends_on,
        ready: None,
    };

    assert!(dependencies_satisfied(&processes, &config));

    processes
        .iter_mut()
        .find(|p| p.snapshot.name == "setup")
        .expect("setup process")
        .snapshot
        .status = ProcessStatus::Ready;
    assert!(!dependencies_satisfied(&processes, &config));
}

#[test]
fn dependencies_satisfied_requires_ready_for_service_dependency() {
    let mut processes = vec![managed_process("api", ProcessKind::Service, ProcessStatus::Running)];
    let mut depends_on = IndexMap::new();
    depends_on.insert("api".to_string(), DependencyCondition::Ready);
    let config = ProcessConfig {
        kind: ProcessKind::Service,
        cmd: "deno task dev".to_string(),
        depends_on,
        ready: None,
    };

    assert!(!dependencies_satisfied(&processes, &config));

    processes
        .iter_mut()
        .find(|p| p.snapshot.name == "api")
        .expect("api process")
        .snapshot
        .status = ProcessStatus::Ready;
    assert!(dependencies_satisfied(&processes, &config));
}

#[test]
fn dependencies_satisfied_fails_on_missing_dependency() {
    let processes = vec![managed_process("api", ProcessKind::Service, ProcessStatus::Ready)];
    let mut depends_on = IndexMap::new();
    depends_on.insert("db".to_string(), DependencyCondition::Ready);
    let config = ProcessConfig {
        kind: ProcessKind::Service,
        cmd: "deno task dev".to_string(),
        depends_on,
        ready: None,
    };
    assert!(!dependencies_satisfied(&processes, &config));
}

fn snapshot_of(runtime_id: u64, name: &str, status: ProcessStatus, started_at: Option<i64>) -> ProcessSnapshot {
    ProcessSnapshot {
        runtime_id,
        name: name.to_string(),
        kind: ProcessKind::Service,
        status,
        started_at,
        exited_at: None,
        exit_code: None,
    }
}

#[test]
fn sync_snapshot_process_replaces_matching_runtime_snapshot() {
    let runtime_id = runtime_id_for("web");
    let mut session_snapshot = RunSessionSnapshot {
        session_id: 1,
        project_id: "project".to_string(),
        project_name: "demo".to_string(),
        base_dir: "/tmp".to_string(),
        started_at: 1_700_000_000_000,
        stopped_at: None,
        processes: vec![snapshot_of(runtime_id, "web", ProcessStatus::Running, None)],
    };
    let updated = snapshot_of(runtime_id, "web", ProcessStatus::Ready, Some(1_700_000_000_500));

    sync_snapshot_process(&mut session_snapshot, &updated);

    assert_eq!(session_snapshot.processes.len(), 1);
    assert_eq!(session_snapshot.processes[0], updated);
}

#[test]
fn sync_snapshot_process_ignores_unknown_runtime_id() {
    let mut session_snapshot = RunSessionSnapshot {
        session_id: 1,
        project_id: "project".to_string(),
        project_name: "demo".to_string(),
        base_dir: "/tmp".to_string(),
        started_at: 0,
        stopped_at: None,
        processes: vec![snapshot_of(7, "web", ProcessStatus::Running, None)],
    };
    let other = snapshot_of(8, "api", ProcessStatus::Ready, None);
    sync_snapshot_process(&mut session_snapshot, &other);
    assert_eq!(session_snapshot.processes.len(), 1);
    assert_eq!(session_snapshot.processes[0].runtime_id, 7);
    assert_eq!(session_snapshot.processes[0].status, ProcessStatus::Running);
}

#[test]
fn reset_managed_process_restores_pending_state() {
    let mut process = managed_process("api", ProcessKind::Service, ProcessStatus::Failed);
    process.terminating = true;
    process.snapshot.exit_code = Some(1);
    process.snapshot.exited_at = Some(1_700_000_000_000);

    reset_managed_process(&mut process);

    assert_eq!(process.snapshot.status, ProcessStatus::Pending);
    assert!(!process.terminating);
    assert!(process.child.is_none());
    assert_eq!(process.snapshot.exit_code, None);
    assert_eq!(process.snapshot.exited_at, None);
    assert_eq!(process.snapshot.started_at, None);
}

fn managed_process_with_kill_tx(
    name: &str,
    kind: ProcessKind,
    status: ProcessStatus,
) -> (ManagedProcess<TestRuntime>, mpsc::Receiver<()>) {
    let mut process = managed_process(name, kind, status);
    let (kill_tx, kill_rx) = mpsc::channel::<()>(1);
    process.kill_tx = Some(kill_tx);
    (process, kill_rx)
}

#[test]
fn begin_process_termination_transitions_running_to_stopping() {
    for status in [ProcessStatus::Starting, ProcessStatus::Running, ProcessStatus::Ready] {
        let (mut process, mut kill_rx) =
            managed_process_with_kill_tx("api", ProcessKind::Service, status);

        let kill_tx = begin_process_termination(&mut process);

        assert_eq!(process.snapshot.status, ProcessStatus::Stopping);
        assert!(process.terminating, "terminating flag should be set for {status:?}");
        let kill_tx = kill_tx.expect("kill signal should be returned");
        assert!(
            process.kill_tx.is_none(),
            "kill_tx must be taken (not cloned) so the channel drains"
        );
        kill_tx.try_send(()).expect("kill signal should send");
        drop(kill_tx);
        assert_eq!(kill_rx.try_recv().ok(), Some(()));
    }
}

#[test]
fn begin_process_termination_leaves_terminal_states_untouched() {
    for status in [
        ProcessStatus::Pending,
        ProcessStatus::Blocked,
        ProcessStatus::Stopping,
        ProcessStatus::Stopped,
        ProcessStatus::Failed,
        ProcessStatus::Succeeded,
    ] {
        let (mut process, _kill_rx) =
            managed_process_with_kill_tx("api", ProcessKind::Service, status);

        let kill_tx = begin_process_termination(&mut process);

        assert!(
            kill_tx.is_none(),
            "no kill signal expected for terminal/pending state {status:?}"
        );
        assert_eq!(process.snapshot.status, status, "status must be unchanged for {status:?}");
    }
}

#[test]
fn begin_process_termination_twice_sends_one_kill() {
    let (mut process, _kill_rx) =
        managed_process_with_kill_tx("api", ProcessKind::Service, ProcessStatus::Running);
    assert!(begin_process_termination(&mut process).is_some());
    assert!(begin_process_termination(&mut process).is_none());
    assert_eq!(process.snapshot.status, ProcessStatus::Stopping);
    assert!(process.terminating);
}

#[test]
fn reset_after_termination_is_plain_reset() {
    let (mut process, _kill_rx) =
        managed_process_with_kill_tx("api", ProcessKind::Service, ProcessStatus::Ready);
    process.snapshot.started_at = Some(5);
    let _ = begin_process_termination(&mut process);
    reset_managed_process(&mut process);
    assert_eq!(process.snapshot.status, ProcessStatus::Pending);
    assert!(!process.terminating);
    assert!(process.kill_tx.is_none());
    assert_eq!(process.snapshot.started_at, None);
}
