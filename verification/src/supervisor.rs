//! The sessions of the supervisor, one per window, and the transitions that the
//! runtime applies to them as its events arrive.
use vstd::prelude::*;
use vstd::string::StringExecFns;

use crate::config::{DevappConfig, ProcessConfigView, ProcessKind, ReadyConfig, ReadyConfigView};
use crate::config_loader::{dependencies_known, has_cycle, law_acyclic_configuration_has_a_start, Processes};
use crate::error::{AppError, AppErrorView};
use crate::ordered_map::{process_at, process_count};
use crate::session::{
    dependencies_met, dependencies_satisfied, first_with_id, is_live, names_distinct,
    reset_managed_process, reset_spec, sync_snapshot_process, terminate_signal, terminate_spec,
    ManagedProcess, ProcessSnapshot, ProcessSnapshotView, ProcessStatus, RunSessionSnapshot, Runtime,
    begin_process_termination,
};
use crate::text::str_equal;

verus! {

/// A session of a window: what is shown of it, what the runtime keeps for it, its
/// processes in the order of the configuration, and whether it is being stopped.
pub struct ActiveSession<R: Runtime> {
    pub snapshot: RunSessionSnapshot,
    pub data: R::SessionData,
    pub processes: Vec<ManagedProcess<R>>,
    pub stop_requested: bool,
}

/// What is shown of each process, in order.
pub open spec fn process_views<R: Runtime>(ps: Seq<ManagedProcess<R>>) -> Seq<ProcessSnapshotView> {
    ps.map_values(|p: ManagedProcess<R>| p.snapshot@)
}

/// No two processes share a runtime id.
pub open spec fn ids_distinct<R: Runtime>(ps: Seq<ManagedProcess<R>>) -> bool {
    forall|i: int, j: int|
        0 <= i < ps.len() && 0 <= j < ps.len() && i != j ==> #[trigger] ps[i].snapshot.runtime_id
            != #[trigger] ps[j].snapshot.runtime_id
}

/// A status from which a process may be launched.
pub open spec fn is_launchable(s: ProcessStatus) -> bool {
    s == ProcessStatus::Pending || s == ProcessStatus::Blocked || s == ProcessStatus::Stopped
}

/// Process `i` may be launched now: it has no child, it is pending, blocked or
/// stopped, and its dependencies have reached their conditions.
pub open spec fn is_runnable<R: Runtime>(ps: Seq<ManagedProcess<R>>, i: int) -> bool {
    &&& ps[i].child is None
    &&& is_launchable(ps[i].snapshot.status)
    &&& dependencies_met(ps, ps[i].config@.depends_on)
}

/// The names of the runnable processes among the first `n`, in order.
pub open spec fn runnable_names<R: Runtime>(ps: Seq<ManagedProcess<R>>, n: nat) -> Seq<Seq<char>>
    decreases n,
{
    if n == 0 {
        Seq::empty()
    } else {
        let prev = runnable_names(ps, (n - 1) as nat);
        if is_runnable(ps, n - 1) {
            prev.push(ps[n - 1].snapshot.name@)
        } else {
            prev
        }
    }
}

/// A process that has been launched: `Starting`, with a start time and no trace of
/// a former exit.
pub open spec fn starting_spec<R: Runtime>(p: ManagedProcess<R>, now: i64) -> ManagedProcess<R> {
    ManagedProcess {
        snapshot: ProcessSnapshot {
            status: ProcessStatus::Starting,
            started_at: Some(now),
            exited_at: None,
            exit_code: None,
            ..p.snapshot
        },
        ..p
    }
}

/// A process whose child has been launched: it keeps the child, its pid and its
/// kill sender, and is `Running`.
pub open spec fn running_spec<R: Runtime>(
    p: ManagedProcess<R>,
    child: R::Child,
    pid: Option<u32>,
    kill_tx: R::KillSender,
) -> ManagedProcess<R> {
    ManagedProcess {
        child: Some(child),
        pid,
        kill_tx: Some(kill_tx),
        snapshot: ProcessSnapshot { status: ProcessStatus::Running, ..p.snapshot },
        ..p
    }
}

/// A process that passed its readiness check.
pub open spec fn ready_spec<R: Runtime>(p: ManagedProcess<R>) -> ManagedProcess<R> {
    ManagedProcess { snapshot: ProcessSnapshot { status: ProcessStatus::Ready, ..p.snapshot }, ..p }
}

/// The status a process takes when its child exits: `Stopped` if it was being
/// terminated, `Succeeded` for a task that exited successfully, `Failed` otherwise.
pub open spec fn exit_status(terminating: bool, kind: ProcessKind, success: bool) -> ProcessStatus {
    if terminating {
        ProcessStatus::Stopped
    } else if success && kind == ProcessKind::Task {
        ProcessStatus::Succeeded
    } else {
        ProcessStatus::Failed
    }
}

/// A process whose child exited.
pub open spec fn exited_spec<R: Runtime>(
    p: ManagedProcess<R>,
    stop_requested: bool,
    exit_code: Option<i32>,
    success: bool,
    now: i64,
) -> ManagedProcess<R> {
    ManagedProcess {
        child: None,
        snapshot: ProcessSnapshot {
            status: exit_status(p.terminating || stop_requested, p.config.kind, success),
            exited_at: Some(now),
            exit_code,
            ..p.snapshot
        },
        ..p
    }
}

/// A process whose child could not be waited for or failed its readiness check.
pub open spec fn failed_spec<R: Runtime>(
    p: ManagedProcess<R>,
    stop_requested: bool,
    exit_code: Option<i32>,
    now: i64,
) -> ManagedProcess<R> {
    ManagedProcess {
        child: None,
        snapshot: ProcessSnapshot {
            status: if p.terminating || stop_requested {
                ProcessStatus::Stopped
            } else {
                ProcessStatus::Failed
            },
            exited_at: Some(now),
            exit_code,
            ..p.snapshot
        },
        ..p
    }
}

/// A process when its session finishes: marked for termination, and, on an
/// explicit stop, moved from `Pending` or `Blocked` to `Stopped`.
pub open spec fn finish_spec<R: Runtime>(p: ManagedProcess<R>, explicit_stop: bool) -> ManagedProcess<R> {
    let t = terminate_spec(p);
    if explicit_stop && (t.snapshot.status == ProcessStatus::Pending || t.snapshot.status
        == ProcessStatus::Blocked) {
        ManagedProcess { snapshot: ProcessSnapshot { status: ProcessStatus::Stopped, ..t.snapshot }, ..t }
    } else {
        t
    }
}

/// The kill senders handed over when the first `n` processes are marked for
/// termination, in order.
pub open spec fn finish_signals<R: Runtime>(ps: Seq<ManagedProcess<R>>, n: nat) -> Seq<R::KillSender>
    decreases n,
{
    if n == 0 {
        Seq::empty()
    } else {
        let prev = finish_signals(ps, (n - 1) as nat);
        match terminate_signal(ps[n - 1]) {
            Some(k) => prev.push(k),
            None => prev,
        }
    }
}

/// What the runtime does once the child of a process has exited.
pub enum ExitOutcome {
    /// The process was being terminated: nothing more to do.
    Terminated,
    /// A task succeeded: launch whatever became runnable.
    Continue,
    /// The process ended unexpectedly: the session finishes with this message.
    Failed(String),
}

/// What follows the launch of a process's child.
pub enum ReadinessStep {
    /// A task: nothing until it exits.
    AwaitExit,
    /// A service without a readiness check: it is ready now.
    MarkReady,
    /// A service with a readiness check: it is ready once this check passes.
    AwaitReadiness(ReadyConfig),
}

/// The model of a [`ReadinessStep`].
pub enum ReadinessStepView {
    AwaitExit,
    MarkReady,
    AwaitReadiness(ReadyConfigView),
}

pub open spec fn step_view(step: ReadinessStep) -> ReadinessStepView {
    match step {
        ReadinessStep::AwaitExit => ReadinessStepView::AwaitExit,
        ReadinessStep::MarkReady => ReadinessStepView::MarkReady,
        ReadinessStep::AwaitReadiness(r) => ReadinessStepView::AwaitReadiness(r@),
    }
}

/// What follows a launch: a task waits for its exit, a service without a
/// readiness check is ready at once, a service with one waits for that check.
pub open spec fn readiness_step_spec(config: ProcessConfigView) -> ReadinessStepView {
    match config.kind {
        ProcessKind::Task => ReadinessStepView::AwaitExit,
        ProcessKind::Service => match config.ready {
            Some(r) => ReadinessStepView::AwaitReadiness(r),
            None => ReadinessStepView::MarkReady,
        },
    }
}

pub open spec fn unknown_process_message(name: Seq<char>) -> Seq<char> {
    "unknown process `"@ + name + "`"@
}

/// The message with which a session finishes when a process ends unexpectedly.
pub open spec fn exited_unexpectedly_message(name: Seq<char>) -> Seq<char> {
    "process `"@ + name + "` exited unexpectedly"@
}

impl<R: Runtime> ActiveSession<R> {
    /// The session is consistent: names and runtime ids are unique, and what is
    /// shown of each process is what it is.
    pub open spec fn wf(&self) -> bool {
        &&& names_distinct(self.processes@)
        &&& ids_distinct(self.processes@)
        &&& self.snapshot@.processes == process_views(self.processes@)
    }

    /// Everything but the processes is left as it was.
    pub open spec fn same_frame(&self, other: &Self) -> bool {
        &&& self.snapshot@.session_id == other.snapshot@.session_id
        &&& self.snapshot@.project_id == other.snapshot@.project_id
        &&& self.snapshot@.project_name == other.snapshot@.project_name
        &&& self.snapshot@.base_dir == other.snapshot@.base_dir
        &&& self.snapshot@.started_at == other.snapshot@.started_at
        &&& self.snapshot@.stopped_at == other.snapshot@.stopped_at
        &&& self.data == other.data
        &&& self.stop_requested == other.stop_requested
    }

    /// The position of the process with the given name.
    pub open spec fn has_process(&self, name: Seq<char>, j: int) -> bool {
        0 <= j < self.processes@.len() && self.processes@[j].snapshot.name@ == name
    }

    /// Some process carries the given name.
    pub open spec fn knows(&self, name: Seq<char>) -> bool {
        exists|j: int| self.has_process(name, j)
    }

    /// Opens a session on a configuration: one pending process per configured
    /// process, in order, with runtime ids counted from `first_runtime_id`.
    pub fn new(
        session_id: u64,
        project_id: String,
        project_name: String,
        base_dir: String,
        started_at: i64,
        config: &DevappConfig,
        first_runtime_id: u64,
        log_txs: Vec<R::LogSender>,
        data: R::SessionData,
    ) -> (r: Self)
        requires
            log_txs@.len() == config@.processes.len(),
            first_runtime_id + config@.processes.len() <= u64::MAX,
        ensures
            r.wf(),
            r.snapshot@.session_id == session_id,
            r.snapshot@.project_id == project_id@,
            r.snapshot@.project_name == project_name@,
            r.snapshot@.base_dir == base_dir@,
            r.snapshot@.started_at == started_at,
            r.snapshot@.stopped_at is None,
            r.data == data,
            !r.stop_requested,
            r.processes@.len() == config@.processes.len(),
            forall|i: int|
                0 <= i < config@.processes.len() ==> {
                    let p = #[trigger] r.processes@[i];
                    &&& p.config@ == config@.processes[i].1
                    &&& p.snapshot@ == (ProcessSnapshotView {
                        runtime_id: (first_runtime_id + i) as u64,
                        name: config@.processes[i].0,
                        kind: config@.processes[i].1.kind,
                        status: ProcessStatus::Pending,
                        started_at: None,
                        exited_at: None,
                        exit_code: None,
                    })
                    &&& p.child is None
                    &&& p.pid is None
                    &&& p.kill_tx is None
                    &&& p.log_tx == log_txs@[i]
                    &&& !p.terminating
                },
    {
        let n = process_count(&config.processes);
        let ghost ps = config@.processes;
        let mut log_txs = log_txs;
        let ghost logs0 = log_txs@;
        let mut processes: Vec<ManagedProcess<R>> = Vec::new();
        let mut snapshots: Vec<ProcessSnapshot> = Vec::new();
        let mut i: usize = 0;
        while i < n
            invariant
                n == ps.len(),
                ps == config@.processes,
                forall|a: int, b: int|
                    0 <= a < n && 0 <= b < n && a != b ==> ps[a].0 != ps[b].0,
                first_runtime_id + n <= u64::MAX,
                i <= n,
                log_txs@ == logs0.subrange(i as int, n as int),
                logs0.len() == n,
                processes@.len() == i,
                snapshots@.len() == i,
                forall|k: int|
                    0 <= k < i ==> {
                        let p = #[trigger] processes@[k];
                        &&& p.config@ == ps[k].1
                        &&& p.snapshot@ == (ProcessSnapshotView {
                            runtime_id: (first_runtime_id + k) as u64,
                            name: ps[k].0,
                            kind: ps[k].1.kind,
                            status: ProcessStatus::Pending,
                            started_at: None,
                            exited_at: None,
                            exit_code: None,
                        })
                        &&& p.child is None
                        &&& p.pid is None
                        &&& p.kill_tx is None
                        &&& p.log_tx == logs0[k]
                        &&& !p.terminating
                    },
                forall|k: int| 0 <= k < i ==> #[trigger] snapshots@[k]@ == processes@[k].snapshot@,
            decreases n - i,
        {
            let entry = process_at(&config.processes, i).unwrap();
            let name = entry.0;
            let process_config = entry.1;
            let snapshot = ProcessSnapshot {
                runtime_id: first_runtime_id + i as u64,
                name: name.clone(),
                kind: process_config.kind,
                status: ProcessStatus::Pending,
                started_at: None,
                exited_at: None,
                exit_code: None,
            };
            snapshots.push(snapshot.duplicate());
            let log_tx = log_txs.remove(0);
            proof {
                assert(log_tx == logs0[i as int]);
                assert(log_txs@ =~= logs0.subrange(i + 1, n as int));
            }
            processes.push(
                ManagedProcess {
                    config: process_config.duplicate(),
                    snapshot,
                    child: None,
                    pid: None,
                    kill_tx: None,
                    log_tx,
                    terminating: false,
                },
            );
            i = i + 1;
        }
        let r = ActiveSession {
            snapshot: RunSessionSnapshot {
                session_id,
                project_id,
                project_name,
                base_dir,
                started_at,
                stopped_at: None,
                processes: snapshots,
            },
            data,
            processes,
            stop_requested: false,
        };
        assert(r.snapshot@.processes =~= process_views(r.processes@));
        r
    }

    /// Finds a process by name, or fails with "unknown process".
    pub fn process_index(&self, name: &str) -> (r: Result<usize, AppError>)
        requires
            self.wf(),
        ensures
            match r {
                Ok(j) => self.has_process(name@, j as int),
                Err(e) => !self.knows(name@) && e@ == AppErrorView::Runtime(
                    unknown_process_message(name@),
                ),
            },
    {
        let mut j: usize = 0;
        while j < self.processes.len()
            invariant
                j <= self.processes@.len(),
                forall|q: int| 0 <= q < j ==> self.processes@[q].snapshot.name@ != name@,
            decreases self.processes.len() - j,
        {
            if str_equal(self.processes[j].snapshot.name.as_str(), name) {
                return Ok(j);
            }
            j = j + 1;
        }
        let mut m = String::from_str("unknown process `");
        m.append(name);
        m.append("`");
        Err(AppError::runtime(m))
    }

    /// Shows process `j` as it now is.
    fn sync_at(&mut self, j: usize)
        requires
            j < old(self).processes@.len(),
            names_distinct(old(self).processes@),
            ids_distinct(old(self).processes@),
            old(self).snapshot@.processes.len() == old(self).processes@.len(),
            forall|i: int|
                0 <= i < old(self).processes@.len() && i != j ==> old(self).snapshot@.processes[i]
                    == #[trigger] old(self).processes@[i].snapshot@,
            old(self).snapshot@.processes[j as int].runtime_id
                == old(self).processes@[j as int].snapshot.runtime_id,
        ensures
            final(self).wf(),
            final(self).processes@ == old(self).processes@,
            final(self).same_frame(old(self)),
    {
        let ghost old_ps = self.snapshot@.processes;
        sync_snapshot_process(&mut self.snapshot, &self.processes[j].snapshot);
        proof {
            let p = self.processes@[j as int].snapshot@;
            assert(first_with_id(old_ps, p.runtime_id, j as int)) by {
                assert forall|q: int| 0 <= q < j implies old_ps[q].runtime_id != p.runtime_id by {
                    assert(old_ps[q] == self.processes@[q].snapshot@);
                }
            }
            let c = choose|i: int| first_with_id(old_ps, p.runtime_id, i);
            assert(c == j) by {
                if c != j {
                    assert(old_ps[c] == self.processes@[c].snapshot@);
                }
            }
            assert(self.snapshot@.processes =~= process_views(self.processes@));
        }
    }

    /// The names of the processes that may be launched now, in order; none once
    /// the session is being stopped.
    pub fn runnable_processes(&self) -> (r: Vec<String>)
        requires
            self.wf(),
        ensures
            r@.map_values(|s: String| s@) == if self.stop_requested {
                Seq::<Seq<char>>::empty()
            } else {
                runnable_names(self.processes@, self.processes@.len())
            },
    {
        let mut r: Vec<String> = Vec::new();
        if self.stop_requested {
            assert(r@.map_values(|s: String| s@) =~= Seq::<Seq<char>>::empty());
            return r;
        }
        let mut i: usize = 0;
        while i < self.processes.len()
            invariant
                self.wf(),
                !self.stop_requested,
                i <= self.processes@.len(),
                r@.map_values(|s: String| s@) == runnable_names(self.processes@, i as nat),
            decreases self.processes.len() - i,
        {
            let p = &self.processes[i];
            let launchable = match p.snapshot.status {
                ProcessStatus::Pending | ProcessStatus::Blocked | ProcessStatus::Stopped => true,
                _ => false,
            };
            if p.child.is_none() && launchable && dependencies_satisfied(&self.processes, &p.config) {
                r.push(p.snapshot.name.clone());
                assert(r@.map_values(|s: String| s@) =~= runnable_names(self.processes@, i as nat).push(
                    self.processes@[i as int].snapshot.name@,
                ));
            }
            i = i + 1;
        }
        r
    }

    /// Returns a process to `Pending` so that it can be launched again.
    pub fn reset_process(&mut self, process_name: &str) -> (r: Result<(), AppError>)
        requires
            old(self).wf(),
        ensures
            final(self).wf(),
            final(self).same_frame(old(self)),
            match r {
                Ok(()) => exists|j: int|
                    old(self).has_process(process_name@, j) && final(self).processes@
                        == old(self).processes@.update(j, reset_spec(old(self).processes@[j])),
                Err(e) => !old(self).knows(process_name@) && final(self).processes@
                    == old(self).processes@ && e@ == AppErrorView::Runtime(
                    unknown_process_message(process_name@),
                ),
            },
    {
        let j = match self.process_index(process_name) {
            Ok(j) => j,
            Err(e) => return Err(e),
        };
        let ghost before = self.processes@;
        reset_managed_process(&mut self.processes[j]);
        proof {
            lemma_update_keeps_keys(before, j as int, self.processes@[j as int]);
        }
        self.sync_at(j);
        Ok(())
    }

    /// Marks a service for termination on the user's request. Tasks cannot be
    /// stopped.
    pub fn stop_process(&mut self, process_name: &str) -> (r: Result<Option<R::KillSender>, AppError>)
        requires
            old(self).wf(),
        ensures
            final(self).wf(),
            final(self).same_frame(old(self)),
            match r {
                Ok(signal) => exists|j: int|
                    old(self).has_process(process_name@, j) && old(self).processes@[j].config.kind
                        == ProcessKind::Service && signal == terminate_signal(old(self).processes@[j])
                        && final(self).processes@ == old(self).processes@.update(
                        j,
                        terminate_spec(old(self).processes@[j]),
                    ),
                Err(e) => final(self).processes@ == old(self).processes@ && (if old(self).knows(
                    process_name@,
                ) {
                    exists|j: int|
                        old(self).has_process(process_name@, j) && old(self).processes@[j].config.kind
                            == ProcessKind::Task && e@ == AppErrorView::Runtime(
                            "cannot stop a task process"@,
                        )
                } else {
                    e@ == AppErrorView::Runtime(unknown_process_message(process_name@))
                }),
            },
    {
        let j = match self.process_index(process_name) {
            Ok(j) => j,
            Err(e) => return Err(e),
        };
        if self.processes[j].config.kind == ProcessKind::Task {
            return Err(AppError::runtime(String::from_str("cannot stop a task process")));
        }
        let ghost before = self.processes@;
        let signal = begin_process_termination(&mut self.processes[j]);
        proof {
            lemma_update_keeps_keys(before, j as int, self.processes@[j as int]);
        }
        self.sync_at(j);
        Ok(signal)
    }

    /// Whether a process may be restarted: it exists and is a service.
    pub fn check_restartable(&self, process_name: &str) -> (r: Result<(), AppError>)
        requires
            self.wf(),
        ensures
            match r {
                Ok(()) => exists|j: int|
                    self.has_process(process_name@, j) && self.processes@[j].config.kind
                        == ProcessKind::Service,
                Err(e) => if self.knows(process_name@) {
                    exists|j: int|
                        self.has_process(process_name@, j) && self.processes@[j].config.kind
                            == ProcessKind::Task && e@ == AppErrorView::Runtime(
                            "cannot restart a task process"@,
                        )
                } else {
                    e@ == AppErrorView::Runtime(unknown_process_message(process_name@))
                },
            },
    {
        let j = match self.process_index(process_name) {
            Ok(j) => j,
            Err(e) => return Err(e),
        };
        if self.processes[j].config.kind == ProcessKind::Task {
            return Err(AppError::runtime(String::from_str("cannot restart a task process")));
        }
        Ok(())
    }

    /// Starts the launch of a process: unless it already has a child, it becomes
    /// `Starting` at `now`, and `true` says that the runtime is to launch it.
    pub fn begin_spawn(&mut self, process_name: &str, now: i64) -> (r: Result<bool, AppError>)
        requires
            old(self).wf(),
        ensures
            final(self).wf(),
            final(self).same_frame(old(self)),
            match r {
                Ok(launch) => exists|j: int|
                    old(self).has_process(process_name@, j) && launch == (old(self).processes@[j].child is None) && final(self).processes@ == if launch {
                        old(self).processes@.update(j, starting_spec(old(self).processes@[j], now))
                    } else {
                        old(self).processes@
                    },
                Err(e) => !old(self).knows(process_name@) && final(self).processes@
                    == old(self).processes@ && e@ == AppErrorView::Runtime(
                    unknown_process_message(process_name@),
                ),
            },
    {
        let j = match self.process_index(process_name) {
            Ok(j) => j,
            Err(e) => return Err(e),
        };
        if self.processes[j].child.is_some() {
            return Ok(false);
        }
        let ghost before = self.processes@;
        self.processes[j].snapshot.status = ProcessStatus::Starting;
        self.processes[j].snapshot.started_at = Some(now);
        self.processes[j].snapshot.exited_at = None;
        self.processes[j].snapshot.exit_code = None;
        proof {
            assert(self.processes@ == before.update(j as int, starting_spec(before[j as int], now)));
            lemma_update_keeps_keys(before, j as int, self.processes@[j as int]);
        }
        self.sync_at(j);
        Ok(true)
    }

    /// Records the child launched for a process: it is `Running`. Says what comes
    /// next: a task waits for its exit; a service without a readiness check is
    /// ready at once; a service with one waits for that check.
    pub fn record_spawned(
        &mut self,
        process_name: &str,
        child: R::Child,
        pid: Option<u32>,
        kill_tx: R::KillSender,
    ) -> (r: Result<ReadinessStep, AppError>)
        requires
            old(self).wf(),
        ensures
            final(self).wf(),
            final(self).same_frame(old(self)),
            match r {
                Ok(step) => exists|j: int|
                    old(self).has_process(process_name@, j) && final(self).processes@ == old(self).processes@.update(j, running_spec(old(self).processes@[j], child, pid, kill_tx))
                        && step_view(step) == readiness_step_spec(old(self).processes@[j].config@),
                Err(e) => !old(self).knows(process_name@) && final(self).processes@
                    == old(self).processes@ && e@ == AppErrorView::Runtime(
                    unknown_process_message(process_name@),
                ),
            },
    {
        let j = match self.process_index(process_name) {
            Ok(j) => j,
            Err(e) => return Err(e),
        };
        let ghost before = self.processes@;
        let step = match self.processes[j].config.kind {
            ProcessKind::Task => ReadinessStep::AwaitExit,
            ProcessKind::Service => match &self.processes[j].config.ready {
                Some(ready) => ReadinessStep::AwaitReadiness(ready.duplicate()),
                None => ReadinessStep::MarkReady,
            },
        };
        self.processes[j].child = Some(child);
        self.processes[j].pid = pid;
        self.processes[j].kill_tx = Some(kill_tx);
        self.processes[j].snapshot.status = ProcessStatus::Running;
        proof {
            assert(self.processes@ == before.update(
                j as int,
                running_spec(before[j as int], child, pid, kill_tx),
            ));
            lemma_update_keeps_keys(before, j as int, self.processes@[j as int]);
        }
        self.sync_at(j);
        Ok(step)
    }

    /// Records that a process passed its readiness check. A process being
    /// terminated is left as it is, and `false` says that nothing changed.
    pub fn mark_process_ready(&mut self, process_name: &str) -> (r: Result<bool, AppError>)
        requires
            old(self).wf(),
        ensures
            final(self).wf(),
            final(self).same_frame(old(self)),
            match r {
                Ok(changed) => exists|j: int|
                    old(self).has_process(process_name@, j) && changed == !old(self).processes@[j].terminating && final(self).processes@ == if changed {
                        old(self).processes@.update(j, ready_spec(old(self).processes@[j]))
                    } else {
                        old(self).processes@
                    },
                Err(e) => !old(self).knows(process_name@) && final(self).processes@
                    == old(self).processes@ && e@ == AppErrorView::Runtime(
                    unknown_process_message(process_name@),
                ),
            },
    {
        let j = match self.process_index(process_name) {
            Ok(j) => j,
            Err(e) => return Err(e),
        };
        if self.processes[j].terminating {
            return Ok(false);
        }
        let ghost before = self.processes@;
        self.processes[j].snapshot.status = ProcessStatus::Ready;
        proof {
            assert(self.processes@ == before.update(j as int, ready_spec(before[j as int])));
            lemma_update_keeps_keys(before, j as int, self.processes@[j as int]);
        }
        self.sync_at(j);
        Ok(true)
    }

    /// Records that the child of a process exited, with its exit code and whether
    /// it succeeded, and says what the runtime is to do next.
    pub fn record_process_exit(
        &mut self,
        process_name: &str,
        exit_code: Option<i32>,
        success: bool,
        now: i64,
    ) -> (r: Result<ExitOutcome, AppError>)
        requires
            old(self).wf(),
        ensures
            final(self).wf(),
            final(self).same_frame(old(self)),
            match r {
                Ok(outcome) => exists|j: int|
                    #![trigger old(self).processes@[j]]
                    {
                        let p = old(self).processes@[j];
                        let terminating = p.terminating || old(self).stop_requested;
                        &&& old(self).has_process(process_name@, j)
                        &&& final(self).processes@ == old(self).processes@.update(
                            j,
                            exited_spec(p, old(self).stop_requested, exit_code, success, now),
                        )
                        &&& match outcome {
                            ExitOutcome::Terminated => terminating,
                            ExitOutcome::Continue => !terminating && success && p.config.kind
                                == ProcessKind::Task,
                            ExitOutcome::Failed(m) => !terminating && !(success && p.config.kind
                                == ProcessKind::Task) && m@ == exited_unexpectedly_message(
                                process_name@,
                            ),
                        }
                    },
                Err(e) => !old(self).knows(process_name@) && final(self).processes@
                    == old(self).processes@ && e@ == AppErrorView::Runtime(
                    unknown_process_message(process_name@),
                ),
            },
    {
        let j = match self.process_index(process_name) {
            Ok(j) => j,
            Err(e) => return Err(e),
        };
        let ghost before = self.processes@;
        let terminating = self.processes[j].terminating || self.stop_requested;
        let kind = self.processes[j].config.kind;
        let task_succeeded = success && kind == ProcessKind::Task;
        self.processes[j].child = None;
        self.processes[j].snapshot.exited_at = Some(now);
        self.processes[j].snapshot.exit_code = exit_code;
        if terminating {
            self.processes[j].snapshot.status = ProcessStatus::Stopped;
        } else if task_succeeded {
            self.processes[j].snapshot.status = ProcessStatus::Succeeded;
        } else {
            self.processes[j].snapshot.status = ProcessStatus::Failed;
        }
        proof {
            assert(self.processes@ == before.update(
                j as int,
                exited_spec(before[j as int], self.stop_requested, exit_code, success, now),
            ));
            lemma_update_keeps_keys(before, j as int, self.processes@[j as int]);
        }
        self.sync_at(j);
        if terminating {
            Ok(ExitOutcome::Terminated)
        } else if task_succeeded {
            Ok(ExitOutcome::Continue)
        } else {
            let mut m = String::from_str("process `");
            m.append(process_name);
            m.append("` exited unexpectedly");
            Ok(ExitOutcome::Failed(m))
        }
    }

    /// Records that a process failed (its child could not be waited for, or its
    /// readiness check failed). Returns whether it was being terminated; if not,
    /// the session is to finish.
    pub fn record_process_failure(
        &mut self,
        process_name: &str,
        exit_code: Option<i32>,
        now: i64,
    ) -> (r: Result<bool, AppError>)
        requires
            old(self).wf(),
        ensures
            final(self).wf(),
            final(self).same_frame(old(self)),
            match r {
                Ok(terminating) => exists|j: int|
                    old(self).has_process(process_name@, j) && terminating == (old(self).processes@[j].terminating || old(self).stop_requested) && final(self).processes@ == old(self).processes@.update(
                        j,
                        failed_spec(old(self).processes@[j], old(self).stop_requested, exit_code, now),
                    ),
                Err(e) => !old(self).knows(process_name@) && final(self).processes@
                    == old(self).processes@ && e@ == AppErrorView::Runtime(
                    unknown_process_message(process_name@),
                ),
            },
    {
        let j = match self.process_index(process_name) {
            Ok(j) => j,
            Err(e) => return Err(e),
        };
        let ghost before = self.processes@;
        let terminating = self.processes[j].terminating || self.stop_requested;
        if terminating {
            self.processes[j].snapshot.status = ProcessStatus::Stopped;
        } else {
            self.processes[j].snapshot.status = ProcessStatus::Failed;
        }
        self.processes[j].snapshot.exited_at = Some(now);
        self.processes[j].snapshot.exit_code = exit_code;
        self.processes[j].child = None;
        proof {
            assert(self.processes@ == before.update(
                j as int,
                failed_spec(before[j as int], self.stop_requested, exit_code, now),
            ));
            lemma_update_keeps_keys(before, j as int, self.processes@[j as int]);
        }
        self.sync_at(j);
        Ok(terminating)
    }

    /// Finishes the session at `now`: it is being stopped from now on, every process
    /// is marked for termination, and on an explicit stop the processes that never
    /// started are `Stopped`. Returns the kill senders of the live processes, in
    /// order.
    pub fn begin_finish(&mut self, explicit_stop: bool, now: i64) -> (r: Vec<R::KillSender>)
        requires
            old(self).wf(),
        ensures
            final(self).wf(),
            final(self).stop_requested,
            final(self).snapshot@.stopped_at == Some(now),
            final(self).snapshot@.session_id == old(self).snapshot@.session_id,
            final(self).snapshot@.project_id == old(self).snapshot@.project_id,
            final(self).snapshot@.project_name == old(self).snapshot@.project_name,
            final(self).snapshot@.base_dir == old(self).snapshot@.base_dir,
            final(self).snapshot@.started_at == old(self).snapshot@.started_at,
            final(self).data == old(self).data,
            final(self).processes@.len() == old(self).processes@.len(),
            forall|i: int|
                0 <= i < old(self).processes@.len() ==> #[trigger] final(self).processes@[i]
                    == finish_spec(old(self).processes@[i], explicit_stop),
            r@ == finish_signals(old(self).processes@, old(self).processes@.len()),
    {
        self.stop_requested = true;
        self.snapshot.stopped_at = Some(now);
        let ghost old_ps = self.processes@;
        let mut kills: Vec<R::KillSender> = Vec::new();
        let mut i: usize = 0;
        while i < self.processes.len()
            invariant
                self.wf(),
                self.stop_requested,
                self.snapshot@.stopped_at == Some(now),
                self.snapshot@.session_id == old(self).snapshot@.session_id,
                self.snapshot@.project_id == old(self).snapshot@.project_id,
                self.snapshot@.project_name == old(self).snapshot@.project_name,
                self.snapshot@.base_dir == old(self).snapshot@.base_dir,
                self.snapshot@.started_at == old(self).snapshot@.started_at,
                self.data == old(self).data,
                old_ps == old(self).processes@,
                self.processes@.len() == old_ps.len(),
                i <= old_ps.len(),
                forall|k: int|
                    0 <= k < i ==> #[trigger] self.processes@[k] == finish_spec(
                        old_ps[k],
                        explicit_stop,
                    ),
                forall|k: int| i <= k < old_ps.len() ==> #[trigger] self.processes@[k] == old_ps[k],
                kills@ == finish_signals(old_ps, i as nat),
            decreases old_ps.len() - i,
        {
            let ghost before = self.processes@;
            let signal = begin_process_termination(&mut self.processes[i]);
            match signal {
                Some(kill_tx) => {
                    kills.push(kill_tx);
                },
                None => {
                    let idle = match self.processes[i].snapshot.status {
                        ProcessStatus::Pending | ProcessStatus::Blocked => true,
                        _ => false,
                    };
                    if explicit_stop && idle {
                        self.processes[i].snapshot.status = ProcessStatus::Stopped;
                    }
                },
            }
            proof {
                assert(self.processes@ == before.update(
                    i as int,
                    finish_spec(old_ps[i as int], explicit_stop),
                ));
                lemma_update_keeps_keys(before, i as int, self.processes@[i as int]);
                assert(kills@ =~= finish_signals(old_ps, (i + 1) as nat));
            }
            self.sync_at(i);
            i = i + 1;
        }
        kills
    }
}

/// A session together with the key of the window it runs in.
pub struct WindowSession<R: Runtime> {
    pub window_key: String,
    pub session: ActiveSession<R>,
}

/// The sessions of every window.
pub struct OrchestratorState<R: Runtime> {
    pub sessions: Vec<WindowSession<R>>,
}

impl<R: Runtime> OrchestratorState<R> {
    /// Each window has at most one session, and each session is consistent.
    pub open spec fn wf(&self) -> bool {
        &&& forall|i: int, j: int|
            0 <= i < self.sessions@.len() && 0 <= j < self.sessions@.len() && i != j
                ==> #[trigger] self.sessions@[i].window_key@ != #[trigger] self.sessions@[j].window_key@
        &&& forall|i: int| 0 <= i < self.sessions@.len() ==> #[trigger] self.sessions@[i].session.wf()
    }

    /// Session `i` belongs to the window.
    pub open spec fn has_window(&self, window_key: Seq<char>, i: int) -> bool {
        0 <= i < self.sessions@.len() && self.sessions@[i].window_key@ == window_key
    }

    /// The window has a session.
    pub open spec fn knows_window(&self, window_key: Seq<char>) -> bool {
        exists|i: int| self.has_window(window_key, i)
    }

    /// No session at all.
    pub fn new() -> (r: Self)
        ensures
            r.wf(),
            r.sessions@.len() == 0,
    {
        OrchestratorState { sessions: Vec::new() }
    }

    /// The position of the window's session, if it has one.
    pub fn find_session(&self, window_key: &str) -> (r: Option<usize>)
        ensures
            match r {
                Some(i) => self.has_window(window_key@, i as int),
                None => !self.knows_window(window_key@),
            },
    {
        let mut i: usize = 0;
        while i < self.sessions.len()
            invariant
                i <= self.sessions@.len(),
                forall|q: int| 0 <= q < i ==> self.sessions@[q].window_key@ != window_key@,
            decreases self.sessions.len() - i,
        {
            if str_equal(self.sessions[i].window_key.as_str(), window_key) {
                return Some(i);
            }
            i = i + 1;
        }
        None
    }

    /// The position of the window's session, or "no session available".
    pub fn session_index(&self, window_key: &str) -> (r: Result<usize, AppError>)
        ensures
            match r {
                Ok(i) => self.has_window(window_key@, i as int),
                Err(e) => !self.knows_window(window_key@) && e@ == AppErrorView::Runtime(
                    "no session available"@,
                ),
            },
    {
        match self.find_session(window_key) {
            Some(i) => Ok(i),
            None => Err(AppError::runtime(String::from_str("no session available"))),
        }
    }

    /// A copy of what is shown of the window's session, if it has one.
    pub fn snapshot(&self, window_key: &str) -> (r: Option<RunSessionSnapshot>)
        ensures
            match r {
                Some(s) => exists|i: int|
                    self.has_window(window_key@, i) && s@ == self.sessions@[i].session.snapshot@,
                None => !self.knows_window(window_key@),
            },
    {
        match self.find_session(window_key) {
            Some(i) => Some(self.sessions[i].session.snapshot.duplicate()),
            None => None,
        }
    }

    /// Installs a new session for a window, unless the window's session is still
    /// running (it has not stopped). A stopped session is replaced. Returns what
    /// is shown of the new session.
    pub fn start_session(&mut self, window_key: String, session: ActiveSession<R>) -> (r: Result<
        RunSessionSnapshot,
        AppError,
    >)
        requires
            old(self).wf(),
            session.wf(),
        ensures
            final(self).wf(),
            match r {
                Ok(s) => {
                    &&& s@ == session.snapshot@
                    &&& forall|i: int|
                        old(self).has_window(window_key@, i)
                            ==> old(self).sessions@[i].session.snapshot@.stopped_at is Some
                    &&& if old(self).knows_window(window_key@) {
                        exists|i: int|
                            old(self).has_window(window_key@, i) && final(self).sessions@ == old(
                                self,
                            ).sessions@.update(i, WindowSession { window_key, session })
                    } else {
                        final(self).sessions@ == old(self).sessions@.push(
                            WindowSession { window_key, session },
                        )
                    }
                },
                Err(e) => {
                    &&& final(self).sessions@ == old(self).sessions@
                    &&& exists|i: int|
                        old(self).has_window(window_key@, i) && old(self).sessions@[i].session.snapshot@.stopped_at is None
                    &&& e@ == AppErrorView::Runtime(
                        "a project session is already running in this window"@,
                    )
                },
            },
    {
        let snapshot = session.snapshot.duplicate();
        match self.find_session(window_key.as_str()) {
            Some(i) => {
                if self.sessions[i].session.snapshot.stopped_at.is_none() {
                    return Err(
                        AppError::runtime(
                            String::from_str("a project session is already running in this window"),
                        ),
                    );
                }
                let ghost before = self.sessions@;
                self.sessions.set(i, WindowSession { window_key, session });
                proof {
                    assert forall|a: int, b: int|
                        0 <= a < self.sessions@.len() && 0 <= b < self.sessions@.len() && a != b
                            implies #[trigger] self.sessions@[a].window_key@
                        != #[trigger] self.sessions@[b].window_key@ by {
                        if a != i && b != i {
                            assert(self.sessions@[a] == before[a]);
                            assert(self.sessions@[b] == before[b]);
                        } else if a == i {
                            assert(self.sessions@[b] == before[b]);
                        } else {
                            assert(self.sessions@[a] == before[a]);
                        }
                    }
                    assert forall|q: int| 0 <= q < self.sessions@.len() implies #[trigger] self.sessions@[q].session.wf() by {
                        if q != i {
                            assert(self.sessions@[q] == before[q]);
                        }
                    }
                }
            },
            None => {
                let ghost before = self.sessions@;
                proof {
                    assert forall|q: int| 0 <= q < before.len() implies before[q].window_key@
                        != window_key@ by {
                        assert(!self.has_window(window_key@, q));
                    }
                }
                let ghost key = window_key@;
                self.sessions.push(WindowSession { window_key, session });
                proof {
                    assert forall|a: int, b: int|
                        0 <= a < self.sessions@.len() && 0 <= b < self.sessions@.len() && a != b
                            implies #[trigger] self.sessions@[a].window_key@
                        != #[trigger] self.sessions@[b].window_key@ by {
                        if a < before.len() && b < before.len() {
                            assert(self.sessions@[a] == before[a]);
                            assert(self.sessions@[b] == before[b]);
                        } else if a == before.len() {
                            assert(self.sessions@[b] == before[b]);
                            assert(self.sessions@[a].window_key@ == key);
                        } else {
                            assert(self.sessions@[a] == before[a]);
                            assert(self.sessions@[b].window_key@ == key);
                        }
                    }
                    assert forall|q: int| 0 <= q < self.sessions@.len() implies #[trigger] self.sessions@[q].session.wf() by {
                        if q < before.len() {
                            assert(self.sessions@[q] == before[q]);
                        }
                    }
                }
            },
        }
        Ok(snapshot)
    }
}

/// Replacing a process by one with the same name and runtime id keeps names and
/// ids distinct, and the others in place.
proof fn lemma_update_keeps_keys<R: Runtime>(ps: Seq<ManagedProcess<R>>, j: int, p: ManagedProcess<R>)
    requires
        0 <= j < ps.len(),
        names_distinct(ps),
        ids_distinct(ps),
        p.snapshot.name == ps[j].snapshot.name,
        p.snapshot.runtime_id == ps[j].snapshot.runtime_id,
    ensures
        names_distinct(ps.update(j, p)),
        ids_distinct(ps.update(j, p)),
{
    let u = ps.update(j, p);
    assert forall|a: int, b: int|
        0 <= a < u.len() && 0 <= b < u.len() && a != b implies #[trigger] u[a].snapshot.name@
        != #[trigger] u[b].snapshot.name@ by {
        assert(u[a].snapshot.name == ps[a].snapshot.name);
        assert(u[b].snapshot.name == ps[b].snapshot.name);
    }
    assert forall|a: int, b: int|
        0 <= a < u.len() && 0 <= b < u.len() && a != b implies #[trigger] u[a].snapshot.runtime_id
        != #[trigger] u[b].snapshot.runtime_id by {
        assert(u[a].snapshot.runtime_id == ps[a].snapshot.runtime_id);
        assert(u[b].snapshot.runtime_id == ps[b].snapshot.runtime_id);
    }
}

} // verus!

verus! {

/// Marking a process for termination twice hands over no second kill sender and
/// changes nothing more: a process is killed at most once.
pub proof fn law_termination_idempotent<R: Runtime>(p: ManagedProcess<R>)
    ensures
        terminate_signal(terminate_spec(p)) is None,
        terminate_spec(terminate_spec(p)) == terminate_spec(p),
{
}

/// Resetting a process erases any termination begun on it: stopping and then
/// resetting leaves it as resetting alone does.
pub proof fn law_reset_erases_termination<R: Runtime>(p: ManagedProcess<R>)
    ensures
        reset_spec(terminate_spec(p)) == reset_spec(p),
{
}

/// Once a session finishes, none of its processes is still live, each is marked
/// for termination, and on an explicit stop none is left pending or blocked.
pub proof fn law_finish_leaves_nothing_live<R: Runtime>(p: ManagedProcess<R>, explicit_stop: bool)
    ensures
        !is_live(finish_spec(p, explicit_stop).snapshot.status),
        finish_spec(p, explicit_stop).terminating,
        explicit_stop ==> finish_spec(p, explicit_stop).snapshot.status != ProcessStatus::Pending
            && finish_spec(p, explicit_stop).snapshot.status != ProcessStatus::Blocked,
        finish_spec(p, explicit_stop).snapshot.name == p.snapshot.name,
        finish_spec(p, explicit_stop).snapshot.runtime_id == p.snapshot.runtime_id,
{
}

/// A process that has just been reset is runnable exactly when its dependencies
/// have reached their conditions.
pub proof fn law_reset_runnable_iff_dependencies_met<R: Runtime>(ps: Seq<ManagedProcess<R>>, j: int)
    requires
        0 <= j < ps.len(),
    ensures
        is_runnable(ps.update(j, reset_spec(ps[j])), j) <==> dependencies_met(
            ps.update(j, reset_spec(ps[j])),
            ps[j].config@.depends_on,
        ),
{
}

/// Only a process whose dependencies have reached their conditions is ever
/// proposed for launch: the processes start in dependency order.
pub proof fn law_runnable_respects_dependencies<R: Runtime>(ps: Seq<ManagedProcess<R>>, n: nat, k: int)
    requires
        n <= ps.len(),
        0 <= k < runnable_names(ps, n).len(),
    ensures
        exists|i: int|
            0 <= i < n && is_runnable(ps, i) && dependencies_met(ps, ps[i].config@.depends_on)
                && #[trigger] runnable_names(ps, n)[k] == ps[i].snapshot.name@,
    decreases n,
{
    let prev = runnable_names(ps, (n - 1) as nat);
    if k < prev.len() {
        law_runnable_respects_dependencies(ps, (n - 1) as nat, k);
        let i = choose|i: int|
            0 <= i < n - 1 && is_runnable(ps, i) && dependencies_met(ps, ps[i].config@.depends_on)
                && #[trigger] runnable_names(ps, (n - 1) as nat)[k] == ps[i].snapshot.name@;
        assert(runnable_names(ps, n)[k] == prev[k]);
    } else {
        assert(is_runnable(ps, n - 1));
        assert(runnable_names(ps, n)[k] == ps[n - 1].snapshot.name@);
    }
}

} // verus!

verus! {

proof fn lemma_runnable_listed<R: Runtime>(ps: Seq<ManagedProcess<R>>, n: nat, i: int)
    requires
        0 <= i < n <= ps.len(),
        is_runnable(ps, i),
    ensures
        runnable_names(ps, n).contains(ps[i].snapshot.name@),
    decreases n,
{
    let prev = runnable_names(ps, (n - 1) as nat);
    if i == n - 1 {
        assert(runnable_names(ps, n) == prev.push(ps[i].snapshot.name@));
        assert(runnable_names(ps, n)[prev.len() as int] == ps[i].snapshot.name@);
    } else {
        lemma_runnable_listed(ps, (n - 1) as nat, i);
        let k = choose|k: int| 0 <= k < prev.len() && prev[k] == ps[i].snapshot.name@;
        if is_runnable(ps, n - 1) {
            assert(runnable_names(ps, n)[k] == prev[k]);
        }
    }
}

/// A session opened on a valid configuration (its dependencies all name processes
/// and form no cycle) has, before anything ran, at least one process to launch.
pub proof fn law_valid_configuration_can_start<R: Runtime>(cfg: Processes, ps: Seq<ManagedProcess<R>>)
    requires
        cfg.len() > 0,
        dependencies_known(cfg),
        !has_cycle(cfg),
        ps.len() == cfg.len(),
        forall|i: int|
            0 <= i < ps.len() ==> (#[trigger] ps[i]).config@ == cfg[i].1 && ps[i].child is None
                && ps[i].snapshot.status == ProcessStatus::Pending,
    ensures
        runnable_names(ps, ps.len()).len() > 0,
{
    law_acyclic_configuration_has_a_start(cfg);
    let i = choose|i: int| 0 <= i < cfg.len() && #[trigger] cfg[i].1.depends_on.len() == 0;
    assert(ps[i].config@ == cfg[i].1);
    assert(is_runnable(ps, i));
    lemma_runnable_listed(ps, ps.len(), i);
}

} // verus!

verus! {

/// Launching a process at `now` makes it `Starting`, records `now` as its start
/// time and clears any trace of an earlier exit; nothing else of it changes.
pub proof fn law_launch_records_start<R: Runtime>(p: ManagedProcess<R>, now: i64)
    ensures
        starting_spec(p, now).snapshot.status == ProcessStatus::Starting,
        starting_spec(p, now).snapshot.started_at == Some(now),
        starting_spec(p, now).snapshot.exited_at is None,
        starting_spec(p, now).snapshot.exit_code is None,
        starting_spec(p, now).snapshot.name == p.snapshot.name,
        starting_spec(p, now).snapshot.runtime_id == p.snapshot.runtime_id,
        starting_spec(p, now).child == p.child,
        starting_spec(p, now).terminating == p.terminating,
        starting_spec(p, now).config == p.config,
{
}

/// When a child exits, a process that neither it nor its session was
/// terminating is never `Stopped`: a task that exited successfully has
/// `Succeeded`, anything else has `Failed`. A process being terminated is
/// `Stopped`. The exit code and time are recorded and the child is gone.
pub proof fn law_exit_status<R: Runtime>(
    p: ManagedProcess<R>,
    stop_requested: bool,
    exit_code: Option<i32>,
    success: bool,
    now: i64,
)
    ensures
        (p.terminating || stop_requested) ==> exited_spec(
            p,
            stop_requested,
            exit_code,
            success,
            now,
        ).snapshot.status == ProcessStatus::Stopped,
        !(p.terminating || stop_requested) ==> exited_spec(
            p,
            stop_requested,
            exit_code,
            success,
            now,
        ).snapshot.status != ProcessStatus::Stopped,
        !(p.terminating || stop_requested) && success && p.config.kind == ProcessKind::Task
            ==> exited_spec(p, stop_requested, exit_code, success, now).snapshot.status
            == ProcessStatus::Succeeded,
        !(p.terminating || stop_requested) && !(success && p.config.kind == ProcessKind::Task)
            ==> exited_spec(p, stop_requested, exit_code, success, now).snapshot.status
            == ProcessStatus::Failed,
        exited_spec(p, stop_requested, exit_code, success, now).snapshot.exit_code == exit_code,
        exited_spec(p, stop_requested, exit_code, success, now).snapshot.exited_at == Some(now),
        exited_spec(p, stop_requested, exit_code, success, now).child is None,
        exited_spec(p, stop_requested, exit_code, success, now).snapshot.name == p.snapshot.name,
{
}

/// A failure (no exit status, or a failed readiness check) leaves a process
/// `Stopped` only when it was being terminated, `Failed` otherwise.
pub proof fn law_failure_status<R: Runtime>(
    p: ManagedProcess<R>,
    stop_requested: bool,
    exit_code: Option<i32>,
    now: i64,
)
    ensures
        (p.terminating || stop_requested) ==> failed_spec(p, stop_requested, exit_code, now).snapshot.status
            == ProcessStatus::Stopped,
        !(p.terminating || stop_requested) ==> failed_spec(p, stop_requested, exit_code, now).snapshot.status
            == ProcessStatus::Failed,
        failed_spec(p, stop_requested, exit_code, now).snapshot.exit_code == exit_code,
        failed_spec(p, stop_requested, exit_code, now).snapshot.exited_at == Some(now),
        failed_spec(p, stop_requested, exit_code, now).child is None,
{
}

/// After a launch, a task waits for its exit, a service without a readiness check
/// is ready at once, and a service with a readiness check, of whatever type,
/// waits for exactly that check.
pub proof fn law_readiness_step(config: ProcessConfigView)
    ensures
        config.kind == ProcessKind::Task ==> readiness_step_spec(config) == ReadinessStepView::AwaitExit,
        config.kind == ProcessKind::Service && config.ready is None ==> readiness_step_spec(config)
            == ReadinessStepView::MarkReady,
        config.kind == ProcessKind::Service && config.ready is Some ==> readiness_step_spec(config)
            == ReadinessStepView::AwaitReadiness(config.ready->0),
{
}

/// A readiness step carries the readiness check it stands for.
pub proof fn law_step_view_keeps_check(r: ReadyConfig)
    ensures
        step_view(ReadinessStep::AwaitReadiness(r)) == ReadinessStepView::AwaitReadiness(r@),
        step_view(ReadinessStep::MarkReady) == ReadinessStepView::MarkReady,
        step_view(ReadinessStep::AwaitExit) == ReadinessStepView::AwaitExit,
{
}

/// Finishing hands over the kill sender of every live process (starting, running
/// or ready) that has one, each exactly once and in the order of the processes,
/// and nothing else: the senders handed over for the first `n` processes are
/// `sig[k] = kill sender of process idx[k]` for a strictly increasing `idx` that
/// lists every such process.
pub proof fn law_finish_hands_over_every_live_kill<R: Runtime>(ps: Seq<ManagedProcess<R>>, n: nat)
    requires
        n <= ps.len(),
    ensures
        exists|idx: Seq<int>|
            #![trigger idx.len()]
            {
                let sig = finish_signals(ps, n);
                &&& idx.len() == sig.len()
                &&& forall|k: int|
                    0 <= k < idx.len() ==> {
                        &&& 0 <= #[trigger] idx[k] < n
                        &&& (ps[idx[k]].snapshot.status == ProcessStatus::Starting
                            || ps[idx[k]].snapshot.status == ProcessStatus::Running
                            || ps[idx[k]].snapshot.status == ProcessStatus::Ready)
                        &&& ps[idx[k]].kill_tx == Some(sig[k])
                    }
                &&& forall|a: int, b: int| 0 <= a < b < idx.len() ==> idx[a] < idx[b]
                &&& forall|i: int|
                    0 <= i < n && (ps[i].snapshot.status == ProcessStatus::Starting
                        || ps[i].snapshot.status == ProcessStatus::Running
                        || ps[i].snapshot.status == ProcessStatus::Ready) && ps[i].kill_tx is Some
                        ==> #[trigger] idx.contains(i)
            },
    decreases n,
{
    if n == 0 {
        let idx = Seq::<int>::empty();
        assert(idx.len() == finish_signals(ps, n).len());
    } else {
        law_finish_hands_over_every_live_kill(ps, (n - 1) as nat);
        let prev = finish_signals(ps, (n - 1) as nat);
        let idx0 = choose|idx: Seq<int>|
            #![trigger idx.len()]
            {
                let sig = finish_signals(ps, (n - 1) as nat);
                &&& idx.len() == sig.len()
                &&& forall|k: int|
                    0 <= k < idx.len() ==> {
                        &&& 0 <= #[trigger] idx[k] < n - 1
                        &&& (ps[idx[k]].snapshot.status == ProcessStatus::Starting
                            || ps[idx[k]].snapshot.status == ProcessStatus::Running
                            || ps[idx[k]].snapshot.status == ProcessStatus::Ready)
                        &&& ps[idx[k]].kill_tx == Some(sig[k])
                    }
                &&& forall|a: int, b: int| 0 <= a < b < idx.len() ==> idx[a] < idx[b]
                &&& forall|i: int|
                    0 <= i < n - 1 && (ps[i].snapshot.status == ProcessStatus::Starting
                        || ps[i].snapshot.status == ProcessStatus::Running
                        || ps[i].snapshot.status == ProcessStatus::Ready) && ps[i].kill_tx is Some
                        ==> #[trigger] idx.contains(i)
            };
        let last = ps[n - 1];
        let live = last.snapshot.status == ProcessStatus::Starting || last.snapshot.status
            == ProcessStatus::Running || last.snapshot.status == ProcessStatus::Ready;
        let sig = finish_signals(ps, n);
        if live && last.kill_tx is Some {
            let idx = idx0.push(n - 1);
            assert(sig == prev.push(last.kill_tx->0));
            assert forall|k: int| 0 <= k < idx.len() implies {
                &&& 0 <= #[trigger] idx[k] < n
                &&& (ps[idx[k]].snapshot.status == ProcessStatus::Starting
                    || ps[idx[k]].snapshot.status == ProcessStatus::Running
                    || ps[idx[k]].snapshot.status == ProcessStatus::Ready)
                &&& ps[idx[k]].kill_tx == Some(sig[k])
            } by {
                if k < idx0.len() {
                    assert(idx[k] == idx0[k]);
                    assert(sig[k] == prev[k]);
                }
            }
            assert forall|a: int, b: int| 0 <= a < b < idx.len() implies idx[a] < idx[b] by {
                if b < idx0.len() {
                    assert(idx[a] == idx0[a] && idx[b] == idx0[b]);
                } else {
                    assert(idx[a] == idx0[a]);
                    assert(0 <= idx0[a] < n - 1);
                }
            }
            assert forall|i: int|
                0 <= i < n && (ps[i].snapshot.status == ProcessStatus::Starting
                    || ps[i].snapshot.status == ProcessStatus::Running
                    || ps[i].snapshot.status == ProcessStatus::Ready) && ps[i].kill_tx is Some
                    implies #[trigger] idx.contains(i) by {
                if i < n - 1 {
                    assert(idx0.contains(i));
                    let q = choose|q: int| 0 <= q < idx0.len() && idx0[q] == i;
                    assert(idx[q] == i);
                } else {
                    assert(idx[idx.len() - 1] == i);
                }
            }
        } else {
            assert(sig == prev) by {
                if live {
                    assert(terminate_signal(last) == last.kill_tx);
                } else {
                    assert(!is_live(last.snapshot.status));
                }
            }
            assert forall|i: int|
                0 <= i < n && (ps[i].snapshot.status == ProcessStatus::Starting
                    || ps[i].snapshot.status == ProcessStatus::Running
                    || ps[i].snapshot.status == ProcessStatus::Ready) && ps[i].kill_tx is Some
                    implies #[trigger] idx0.contains(i) by {
                if i == n - 1 {
                    assert(false);
                }
            }
            assert forall|k: int| 0 <= k < idx0.len() implies 0 <= #[trigger] idx0[k] < n by {}
        }
    }
}

} // verus!
