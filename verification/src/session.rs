//! The state of a run session and the decisions that drive it.
//!
//! The supervisor launches processes, waits for them and talks to the user
//! interface; all of that is outside work. What it decides, on each event, about
//! the state of the session is written here as state transitions.
use vstd::prelude::*;

use crate::config::{DependencyCondition, ProcessConfig, ProcessKind};
use crate::ordered_map::{dependency_at, dependency_count, dependency_entries};

verus! {

/// The lifecycle states of a supervised process.
#[derive(Debug, Clone, Copy, PartialEq, Eq, Structural)]
pub enum ProcessStatus {
    Pending,
    Blocked,
    Starting,
    Running,
    Ready,
    Stopping,
    Stopped,
    Failed,
    Succeeded,
}

/// The types that a runtime attaches to a session: the handle of a launched
/// child, the sender that asks its wait task to kill it, the sender of its log
/// lines, and whatever the runtime keeps for the session as a whole.
pub trait Runtime {
    type Child;
    type KillSender;
    type LogSender;
    type SessionData;
}

/// What the user interface is shown of one process.
#[derive(Debug, Clone, PartialEq, Eq)]
pub struct ProcessSnapshot {
    pub runtime_id: u64,
    pub name: String,
    pub kind: ProcessKind,
    pub status: ProcessStatus,
    pub started_at: Option<i64>,
    pub exited_at: Option<i64>,
    pub exit_code: Option<i32>,
}

pub struct ProcessSnapshotView {
    pub runtime_id: u64,
    pub name: Seq<char>,
    pub kind: ProcessKind,
    pub status: ProcessStatus,
    pub started_at: Option<i64>,
    pub exited_at: Option<i64>,
    pub exit_code: Option<i32>,
}

impl View for ProcessSnapshot {
    type V = ProcessSnapshotView;

    open spec fn view(&self) -> ProcessSnapshotView {
        ProcessSnapshotView {
            runtime_id: self.runtime_id,
            name: self.name@,
            kind: self.kind,
            status: self.status,
            started_at: self.started_at,
            exited_at: self.exited_at,
            exit_code: self.exit_code,
        }
    }
}

impl ProcessSnapshot {
    /// A copy of the snapshot.
    pub fn duplicate(&self) -> (r: Self)
        ensures
            r@ == self@,
    {
        ProcessSnapshot {
            runtime_id: self.runtime_id,
            name: self.name.clone(),
            kind: self.kind,
            status: self.status,
            started_at: self.started_at,
            exited_at: self.exited_at,
            exit_code: self.exit_code,
        }
    }
}

/// What the user interface is shown of a whole session.
#[derive(Debug, Clone, PartialEq, Eq)]
pub struct RunSessionSnapshot {
    pub session_id: u64,
    pub project_id: String,
    pub project_name: String,
    pub base_dir: String,
    pub started_at: i64,
    pub stopped_at: Option<i64>,
    pub processes: Vec<ProcessSnapshot>,
}

pub struct RunSessionSnapshotView {
    pub session_id: u64,
    pub project_id: Seq<char>,
    pub project_name: Seq<char>,
    pub base_dir: Seq<char>,
    pub started_at: i64,
    pub stopped_at: Option<i64>,
    pub processes: Seq<ProcessSnapshotView>,
}

impl View for RunSessionSnapshot {
    type V = RunSessionSnapshotView;

    open spec fn view(&self) -> RunSessionSnapshotView {
        RunSessionSnapshotView {
            session_id: self.session_id,
            project_id: self.project_id@,
            project_name: self.project_name@,
            base_dir: self.base_dir@,
            started_at: self.started_at,
            stopped_at: self.stopped_at,
            processes: self.processes@.map_values(|p: ProcessSnapshot| p@),
        }
    }
}

impl RunSessionSnapshot {
    /// A copy of the snapshot.
    pub fn duplicate(&self) -> (r: Self)
        ensures
            r@ == self@,
    {
        let mut processes: Vec<ProcessSnapshot> = Vec::new();
        let mut i: usize = 0;
        while i < self.processes.len()
            invariant
                i <= self.processes.len(),
                processes@.len() == i,
                forall|k: int| 0 <= k < i ==> #[trigger] processes@[k]@ == self.processes@[k]@,
            decreases self.processes.len() - i,
        {
            processes.push(self.processes[i].duplicate());
            i = i + 1;
        }
        let r = RunSessionSnapshot {
            session_id: self.session_id,
            project_id: self.project_id.clone(),
            project_name: self.project_name.clone(),
            base_dir: self.base_dir.clone(),
            started_at: self.started_at,
            stopped_at: self.stopped_at,
            processes,
        };
        assert(r@.processes =~= self@.processes);
        r
    }
}

/// A process of a running session: its configuration, what is shown of it, and
/// what the runtime holds of it while it runs.
pub struct ManagedProcess<R: Runtime> {
    pub config: ProcessConfig,
    pub snapshot: ProcessSnapshot,
    pub child: Option<R::Child>,
    pub pid: Option<u32>,
    pub kill_tx: Option<R::KillSender>,
    pub log_tx: R::LogSender,
    pub terminating: bool,
}

/// Whether a status reaches what a dependency condition waits for.
pub open spec fn status_meets(s: ProcessStatus, c: DependencyCondition) -> bool {
    match c {
        DependencyCondition::Success => s == ProcessStatus::Succeeded,
        DependencyCondition::Ready => s == ProcessStatus::Ready,
    }
}

/// Some process carries the name and has reached the condition.
pub open spec fn dependency_met<R: Runtime>(
    ps: Seq<ManagedProcess<R>>,
    name: Seq<char>,
    c: DependencyCondition,
) -> bool {
    exists|j: int|
        0 <= j < ps.len() && #[trigger] ps[j].snapshot.name@ == name && status_meets(
            ps[j].snapshot.status,
            c,
        )
}

/// Every dependency has reached its condition.
pub open spec fn dependencies_met<R: Runtime>(
    ps: Seq<ManagedProcess<R>>,
    deps: Seq<(Seq<char>, DependencyCondition)>,
) -> bool {
    forall|k: int| 0 <= k < deps.len() ==> dependency_met(ps, #[trigger] deps[k].0, deps[k].1)
}

/// No two processes carry the same name.
pub open spec fn names_distinct<R: Runtime>(ps: Seq<ManagedProcess<R>>) -> bool {
    forall|i: int, j: int|
        0 <= i < ps.len() && 0 <= j < ps.len() && i != j ==> #[trigger] ps[i].snapshot.name@
            != #[trigger] ps[j].snapshot.name@
}

/// The position of the process with the given name.
fn find_process<R: Runtime>(processes: &Vec<ManagedProcess<R>>, name: &String) -> (r: Option<usize>)
    ensures
        match r {
            Some(j) => j < processes@.len() && processes@[j as int].snapshot.name@ == name@,
            None => forall|j: int|
                0 <= j < processes@.len() ==> processes@[j].snapshot.name@ != name@,
        },
{
    let mut j: usize = 0;
    while j < processes.len()
        invariant
            j <= processes@.len(),
            forall|q: int| 0 <= q < j ==> processes@[q].snapshot.name@ != name@,
        decreases processes.len() - j,
    {
        if processes[j].snapshot.name == *name {
            return Some(j);
        }
        j = j + 1;
    }
    None
}

fn meets(status: ProcessStatus, condition: DependencyCondition) -> (r: bool)
    ensures
        r == status_meets(status, condition),
{
    match condition {
        DependencyCondition::Success => match status {
            ProcessStatus::Succeeded => true,
            _ => false,
        },
        DependencyCondition::Ready => match status {
            ProcessStatus::Ready => true,
            _ => false,
        },
    }
}

/// Whether every dependency of a process has reached its condition: a `success`
/// dependency has succeeded, a `ready` dependency is ready.
pub fn dependencies_satisfied<R: Runtime>(
    processes: &Vec<ManagedProcess<R>>,
    config: &ProcessConfig,
) -> (r: bool)
    requires
        names_distinct(processes@),
    ensures
        r == dependencies_met(processes@, config@.depends_on),
{
    let deps = &config.depends_on;
    let n = dependency_count(deps);
    let mut k: usize = 0;
    while k < n
        invariant
            n == config@.depends_on.len(),
            dependency_entries(*deps) == config@.depends_on,
            names_distinct(processes@),
            k <= n,
            forall|q: int|
                0 <= q < k ==> dependency_met(
                    processes@,
                    #[trigger] config@.depends_on[q].0,
                    config@.depends_on[q].1,
                ),
        decreases n - k,
    {
        let entry = dependency_at(deps, k).unwrap();
        let name = entry.0;
        let condition = *entry.1;
        match find_process(processes, name) {
            None => {
                return false;
            },
            Some(j) => {
                if !meets(processes[j].snapshot.status, condition) {
                    proof {
                        assert forall|q: int|
                            0 <= q < processes@.len() && #[trigger] processes@[q].snapshot.name@
                                == name@ implies !status_meets(
                            processes@[q].snapshot.status,
                            condition,
                        ) by {
                            if q != j {
                                assert(processes@[q].snapshot.name@
                                    != processes@[j as int].snapshot.name@);
                            }
                        }
                    }
                    return false;
                }
            },
        }
        k = k + 1;
    }
    true
}

/// Replaces, in a session's snapshot, the entry of the process with the same
/// runtime id (the first such entry); the rest is left as it was.
pub fn sync_snapshot_process(
    session_snapshot: &mut RunSessionSnapshot,
    process_snapshot: &ProcessSnapshot,
)
    ensures
        final(session_snapshot)@.session_id == old(session_snapshot)@.session_id,
        final(session_snapshot)@.project_id == old(session_snapshot)@.project_id,
        final(session_snapshot)@.project_name == old(session_snapshot)@.project_name,
        final(session_snapshot)@.base_dir == old(session_snapshot)@.base_dir,
        final(session_snapshot)@.started_at == old(session_snapshot)@.started_at,
        final(session_snapshot)@.stopped_at == old(session_snapshot)@.stopped_at,
        final(session_snapshot)@.processes == synced(
            old(session_snapshot)@.processes,
            process_snapshot@,
        ),
{
    let ghost old_ps = session_snapshot@.processes;
    let mut i: usize = 0;
    while i < session_snapshot.processes.len()
        invariant
            i <= session_snapshot.processes@.len(),
            session_snapshot@ == old(session_snapshot)@,
            old_ps == old(session_snapshot)@.processes,
            forall|q: int| 0 <= q < i ==> old_ps[q].runtime_id != process_snapshot.runtime_id,
        decreases session_snapshot.processes.len() - i,
    {
        if session_snapshot.processes[i].runtime_id == process_snapshot.runtime_id {
            let copy = process_snapshot.duplicate();
            session_snapshot.processes[i] = copy;
            proof {
                assert(first_with_id(old_ps, process_snapshot.runtime_id, i as int));
                let c = choose|i: int| first_with_id(old_ps, process_snapshot@.runtime_id, i);
                assert(c == i) by {
                    if c < i {
                    } else if c > i {
                        assert(old_ps[i as int].runtime_id == process_snapshot.runtime_id);
                    }
                }
                assert(session_snapshot@.processes =~= old_ps.update(i as int, process_snapshot@));
                assert(synced(old_ps, process_snapshot@) == old_ps.update(i as int, process_snapshot@));
            }
            return;
        }
        i = i + 1;
    }
}

/// Entry `i` is the first whose runtime id is `id`.
pub open spec fn first_with_id(ps: Seq<ProcessSnapshotView>, id: u64, i: int) -> bool {
    &&& 0 <= i < ps.len()
    &&& ps[i].runtime_id == id
    &&& forall|q: int| 0 <= q < i ==> ps[q].runtime_id != id
}

/// The entries of a session's snapshot once `p` has replaced the first entry with
/// its runtime id, if there is one.
pub open spec fn synced(ps: Seq<ProcessSnapshotView>, p: ProcessSnapshotView) -> Seq<
    ProcessSnapshotView,
> {
    if exists|i: int| first_with_id(ps, p.runtime_id, i) {
        let i = choose|i: int| first_with_id(ps, p.runtime_id, i);
        ps.update(i, p)
    } else {
        ps
    }
}

/// A process returned to a clean `Pending` state: nothing of a former run is left.
pub open spec fn reset_spec<R: Runtime>(p: ManagedProcess<R>) -> ManagedProcess<R> {
    ManagedProcess {
        child: None,
        pid: None,
        kill_tx: None,
        terminating: false,
        snapshot: ProcessSnapshot {
            status: ProcessStatus::Pending,
            started_at: None,
            exited_at: None,
            exit_code: None,
            ..p.snapshot
        },
        ..p
    }
}

/// Returns a process to a clean `Pending` state so that it can be launched again.
pub fn reset_managed_process<R: Runtime>(process: &mut ManagedProcess<R>)
    ensures
        *final(process) == reset_spec(*old(process)),
{
    process.child = None;
    process.pid = None;
    process.kill_tx = None;
    process.terminating = false;
    process.snapshot.status = ProcessStatus::Pending;
    process.snapshot.started_at = None;
    process.snapshot.exited_at = None;
    process.snapshot.exit_code = None;
}

/// A status in which the process's child is alive and may be killed.
pub open spec fn is_live(s: ProcessStatus) -> bool {
    s == ProcessStatus::Starting || s == ProcessStatus::Running || s == ProcessStatus::Ready
}

/// A process marked for termination: a live one moves to `Stopping` and gives up
/// its kill sender; any other keeps its status.
pub open spec fn terminate_spec<R: Runtime>(p: ManagedProcess<R>) -> ManagedProcess<R> {
    if is_live(p.snapshot.status) {
        ManagedProcess {
            terminating: true,
            kill_tx: None,
            snapshot: ProcessSnapshot { status: ProcessStatus::Stopping, ..p.snapshot },
            ..p
        }
    } else {
        ManagedProcess { terminating: true, ..p }
    }
}

/// What marking a process for termination hands over: the kill sender of a live
/// process.
pub open spec fn terminate_signal<R: Runtime>(p: ManagedProcess<R>) -> Option<R::KillSender> {
    if is_live(p.snapshot.status) {
        p.kill_tx
    } else {
        None
    }
}

/// Marks a process for termination. A live process (starting, running or ready)
/// moves to `Stopping` and hands over its kill sender, taken out of the process;
/// any other keeps its status and nothing is handed over. The runtime kills the
/// process group by its pid, which this leaves in place.
pub fn begin_process_termination<R: Runtime>(process: &mut ManagedProcess<R>) -> (r: Option<
    R::KillSender,
>)
    ensures
        *final(process) == terminate_spec(*old(process)),
        r == terminate_signal(*old(process)),
{
    process.terminating = true;
    let live = match process.snapshot.status {
        ProcessStatus::Starting | ProcessStatus::Running | ProcessStatus::Ready => true,
        _ => false,
    };
    if live {
        process.snapshot.status = ProcessStatus::Stopping;
        process.kill_tx.take()
    } else {
        None
    }
}

} // verus!

verus! {

/// A process may be launched only once every one of its dependencies has reached
/// its condition: when the dependencies count as met, each entry of `depends_on`,
/// wherever it stands in the list, has a process of that name that has succeeded
/// (for `success`) or is ready (for `ready`).
pub proof fn law_met_dependencies_cover_every_entry<R: Runtime>(
    ps: Seq<ManagedProcess<R>>,
    deps: Seq<(Seq<char>, DependencyCondition)>,
    k: int,
)
    requires
        dependencies_met(ps, deps),
        0 <= k < deps.len(),
    ensures
        exists|j: int|
            0 <= j < ps.len() && #[trigger] ps[j].snapshot.name@ == deps[k].0 && ((deps[k].1
                == DependencyCondition::Success && ps[j].snapshot.status
                == ProcessStatus::Succeeded) || (deps[k].1 == DependencyCondition::Ready
                && ps[j].snapshot.status == ProcessStatus::Ready)),
{
    assert(dependency_met(ps, deps[k].0, deps[k].1));
    let j = choose|j: int|
        0 <= j < ps.len() && #[trigger] ps[j].snapshot.name@ == deps[k].0 && status_meets(
            ps[j].snapshot.status,
            deps[k].1,
        );
    assert(ps[j].snapshot.name@ =~= deps[k].0);
}

/// When every entry of `depends_on` has a process of that name that has reached
/// the entry's condition, the dependencies count as met.
pub proof fn law_every_entry_met_releases_process<R: Runtime>(
    ps: Seq<ManagedProcess<R>>,
    deps: Seq<(Seq<char>, DependencyCondition)>,
)
    requires
        forall|k: int|
            #![trigger deps[k]]
            0 <= k < deps.len() ==> exists|j: int|
                0 <= j < ps.len() && #[trigger] ps[j].snapshot.name@ == deps[k].0 && ((deps[k].1
                    == DependencyCondition::Success && ps[j].snapshot.status
                    == ProcessStatus::Succeeded) || (deps[k].1 == DependencyCondition::Ready
                    && ps[j].snapshot.status == ProcessStatus::Ready)),
    ensures
        dependencies_met(ps, deps),
{
    assert forall|k: int| 0 <= k < deps.len() implies dependency_met(
        ps,
        #[trigger] deps[k].0,
        deps[k].1,
    ) by {
        assert(deps[k] == deps[k]);
        let j = choose|j: int|
            0 <= j < ps.len() && #[trigger] ps[j].snapshot.name@ == deps[k].0 && ((deps[k].1
                == DependencyCondition::Success && ps[j].snapshot.status
                == ProcessStatus::Succeeded) || (deps[k].1 == DependencyCondition::Ready
                && ps[j].snapshot.status == ProcessStatus::Ready));
        assert(ps[j].snapshot.name@ == deps[k].0);
        assert(status_meets(ps[j].snapshot.status, deps[k].1));
    }
}

/// One dependency entry that no process meets, at any position in the list,
/// keeps the dependencies unmet.
pub proof fn law_unmet_entry_blocks<R: Runtime>(
    ps: Seq<ManagedProcess<R>>,
    deps: Seq<(Seq<char>, DependencyCondition)>,
    k: int,
)
    requires
        0 <= k < deps.len(),
        forall|j: int|
            0 <= j < ps.len() && #[trigger] ps[j].snapshot.name@ == deps[k].0 ==> ps[j].snapshot.status
                != (if deps[k].1 == DependencyCondition::Success {
                ProcessStatus::Succeeded
            } else {
                ProcessStatus::Ready
            }),
    ensures
        !dependencies_met(ps, deps),
{
    if dependencies_met(ps, deps) {
        assert(dependency_met(ps, deps[k].0, deps[k].1));
        let j = choose|j: int|
            0 <= j < ps.len() && #[trigger] ps[j].snapshot.name@ == deps[k].0 && status_meets(
                ps[j].snapshot.status,
                deps[k].1,
            );
        assert(ps[j].snapshot.name@ == deps[k].0);
    }
}

} // verus!
