//! Validation of a configuration's processes and of its dependency graph.
use vstd::prelude::*;
use vstd::set_lib::*;
use vstd::string::StringExecFns;

use crate::config::{
    DependencyCondition, DevappConfig, ProcessConfig, ProcessConfigView, ReadyConfig,
    ReadyConfigView,
};
use crate::error::{result_view, AppError, AppErrorView};
use crate::ordered_map::{
    dependency_entries, dependency_at, dependency_count, process_at, process_count, process_index_of,
};
use crate::text::{blank, is_blank};
use crate::url::{parse_url, parsed_view, url_parse};

verus! {

/// The processes of a configuration, as its model holds them.
pub type Processes = Seq<(Seq<char>, ProcessConfigView)>;

/// Whether some process carries the given name.
pub open spec fn is_process(ps: Processes, name: Seq<char>) -> bool {
    exists|j: int| 0 <= j < ps.len() && #[trigger] ps[j].0 == name
}

/// Whether process `i` lists `name` among its dependencies.
pub open spec fn names_dependency(ps: Processes, i: int, name: Seq<char>) -> bool {
    exists|k: int|
        0 <= k < ps[i].1.depends_on.len() && #[trigger] ps[i].1.depends_on[k].0 == name
}

/// Process `i` depends on process `j`.
pub open spec fn depends_on(ps: Processes, i: int, j: int) -> bool {
    &&& 0 <= i < ps.len()
    &&& 0 <= j < ps.len()
    &&& names_dependency(ps, i, ps[j].0)
}

/// A chain of processes, each depending on the next.
pub open spec fn is_dependency_path(ps: Processes, p: Seq<int>) -> bool {
    &&& forall|k: int| 0 <= k < p.len() ==> 0 <= #[trigger] p[k] < ps.len()
    &&& forall|k: int| 0 <= k < p.len() - 1 ==> depends_on(ps, #[trigger] p[k], p[k + 1])
}

/// Process `i` depends, directly or not, on itself.
pub open spec fn on_cycle(ps: Processes, i: int) -> bool {
    exists|p: Seq<int>|
        #[trigger] is_dependency_path(ps, p) && p.len() >= 2 && p[0] == i && p.last() == i
}

/// Process `x` is reachable from process `i` along dependencies (every process
/// reaches itself).
pub open spec fn reaches(ps: Processes, i: int, x: int) -> bool {
    exists|p: Seq<int>| #[trigger] is_dependency_path(ps, p) && p.len() >= 1 && p[0] == i && p.last() == x
}

/// A dependency cycle is reachable from process `i`.
pub open spec fn reaches_cycle(ps: Processes, i: int) -> bool {
    exists|x: int| 0 <= x < ps.len() && #[trigger] reaches(ps, i, x) && on_cycle(ps, x)
}

/// Process `i` is the first, in configuration order, from which a dependency
/// cycle is reachable.
pub open spec fn first_reaching_cycle(ps: Processes, i: int) -> bool {
    &&& 0 <= i < ps.len()
    &&& reaches_cycle(ps, i)
    &&& forall|j: int| 0 <= j < i ==> !reaches_cycle(ps, j)
}

/// The dependency graph has a cycle.
pub open spec fn has_cycle(ps: Processes) -> bool {
    exists|i: int| 0 <= i < ps.len() && #[trigger] on_cycle(ps, i)
}

/// Every dependency names a process.
pub open spec fn dependencies_known(ps: Processes) -> bool {
    forall|i: int, k: int|
        0 <= i < ps.len() && 0 <= k < ps[i].1.depends_on.len() ==> is_process(
            ps,
            #[trigger] ps[i].1.depends_on[k].0,
        )
}

pub open spec fn cycle_message(name: Seq<char>) -> Seq<char> {
    "dependency cycle detected at process `"@ + name + "`"@
}

/// The verdict on an HTTP readiness URL, given what parsing it gave.
pub open spec fn http_url_error(
    process_name: Seq<char>,
    url: Seq<char>,
    parsed: Result<(Seq<char>, Option<Seq<char>>), Seq<char>>,
) -> Option<Seq<char>> {
    match parsed {
        Err(e) => Some(
            "process `"@ + process_name + "` has invalid http readiness URL `"@ + url + "`: "@ + e,
        ),
        Ok((scheme, host)) => if (scheme == "http"@ || scheme == "https"@) && host is Some {
            None
        } else {
            Some(
                "process `"@ + process_name
                    + "` http readiness URL must be an absolute http(s) URL"@,
            )
        },
    }
}

/// The verdict on a readiness check of a process.
pub open spec fn ready_error(process_name: Seq<char>, ready: ReadyConfigView) -> Option<Seq<char>> {
    match ready {
        ReadyConfigView::Http { url, .. } => http_url_error(process_name, url, url_parse(url)),
        ReadyConfigView::Log { pattern, .. } => if blank(pattern) {
            Some("process `"@ + process_name + "` log readiness pattern cannot be empty"@)
        } else {
            None
        },
        ReadyConfigView::Command { cmd, .. } => if blank(cmd) {
            Some("process `"@ + process_name + "` command readiness cmd cannot be empty"@)
        } else {
            None
        },
        ReadyConfigView::Delay { .. } => None,
    }
}

/// Dependency `k` of process `i` names no process.
pub open spec fn unknown_dependency(ps: Processes, i: int, k: int) -> bool {
    !is_process(ps, ps[i].1.depends_on[k].0)
}

/// Dependency `k` of process `i` is the first that names no process.
pub open spec fn first_unknown_dependency(ps: Processes, i: int, k: int) -> bool {
    &&& 0 <= k < ps[i].1.depends_on.len()
    &&& unknown_dependency(ps, i, k)
    &&& forall|k2: int| 0 <= k2 < k ==> !unknown_dependency(ps, i, k2)
}

/// The first check that process `i` fails, in the order they are made.
pub open spec fn process_error(ps: Processes, i: int) -> Option<Seq<char>> {
    let name = ps[i].0;
    let p = ps[i].1;
    if blank(name) {
        Some("process name cannot be empty"@)
    } else if blank(p.cmd) {
        Some("process `"@ + name + "` must declare a non-empty cmd"@)
    } else if p.ready is Some && ready_error(name, p.ready->0) is Some {
        ready_error(name, p.ready->0)
    } else if exists|k: int| first_unknown_dependency(ps, i, k) {
        let k = choose|k: int| first_unknown_dependency(ps, i, k);
        Some("process `"@ + name + "` depends on unknown process `"@ + p.depends_on[k].0 + "`"@)
    } else {
        None
    }
}

/// Process `i` is the first that fails a check.
pub open spec fn first_failing_process(ps: Processes, i: int) -> bool {
    &&& 0 <= i < ps.len()
    &&& process_error(ps, i) is Some
    &&& forall|j: int| 0 <= j < i ==> process_error(ps, j) is None
}

// ---------------------------------------------------------------------------
// Executable checks
// ---------------------------------------------------------------------------

fn message_for(name: &str, tail: &str) -> (r: String)
    ensures
        r@ == "process `"@ + name@ + tail@,
{
    let mut m = String::from_str("process `");
    m.append(name);
    m.append(tail);
    m
}

/// Judges an HTTP readiness URL from the outcome of parsing it.
pub fn check_http_readiness_url(
    process_name: &str,
    url: &str,
    parsed: Result<(String, Option<String>), String>,
) -> (r: Result<(), AppError>)
    ensures
        result_view(r) == match http_url_error(process_name@, url@, parsed_view(parsed)) {
            Some(m) => Err(AppErrorView::Validation(m)),
            None => Ok(()),
        },
{
    match parsed {
        Err(e) => {
            let mut m = message_for(process_name, "` has invalid http readiness URL `");
            m.append(url);
            m.append("`: ");
            m.append(e.as_str());
            Err(AppError::validation(m))
        },
        Ok((scheme, host)) => {
            let http = String::from_str("http");
            let https = String::from_str("https");
            proof {
                reveal_strlit("http");
                reveal_strlit("https");
            }
            if (scheme == http || scheme == https) && host.is_some() {
                Ok(())
            } else {
                Err(
                    AppError::validation(
                        message_for(
                            process_name,
                            "` http readiness URL must be an absolute http(s) URL",
                        ),
                    ),
                )
            }
        },
    }
}

fn validate_ready_config(process_name: &str, ready: &ReadyConfig) -> (r: Result<(), AppError>)
    ensures
        result_view(r) == match ready_error(process_name@, ready@) {
            Some(m) => Err(AppErrorView::Validation(m)),
            None => Ok(()),
        },
{
    match ready {
        ReadyConfig::Http(config) => {
            let parsed = parse_url(config.url.as_str());
            check_http_readiness_url(process_name, config.url.as_str(), parsed)
        },
        ReadyConfig::Log(config) => {
            if is_blank(config.pattern.as_str()) {
                Err(
                    AppError::validation(
                        message_for(process_name, "` log readiness pattern cannot be empty"),
                    ),
                )
            } else {
                Ok(())
            }
        },
        ReadyConfig::Command(config) => {
            if is_blank(config.cmd.as_str()) {
                Err(
                    AppError::validation(
                        message_for(process_name, "` command readiness cmd cannot be empty"),
                    ),
                )
            } else {
                Ok(())
            }
        },
        ReadyConfig::Delay(_) => Ok(()),
    }
}

/// The checks of one process, in the order of `process_error`.
fn validate_process(config: &DevappConfig, i: usize, name: &String, process: &ProcessConfig) -> (r: Result<(), AppError>)
    requires
        i < config@.processes.len(),
        name@ == config@.processes[i as int].0,
        process@ == config@.processes[i as int].1,
    ensures
        result_view(r) == match process_error(config@.processes, i as int) {
            Some(m) => Err(AppErrorView::Validation(m)),
            None => Ok(()),
        },
{
    let ghost ps = config@.processes;
    if is_blank(name.as_str()) {
        return Err(AppError::validation(String::from_str("process name cannot be empty")));
    }
    if is_blank(process.cmd.as_str()) {
        return Err(
            AppError::validation(message_for(name.as_str(), "` must declare a non-empty cmd")),
        );
    }
    match &process.ready {
        Some(ready) => {
            let checked = validate_ready_config(name.as_str(), ready);
            if checked.is_err() {
                return checked;
            }
        },
        None => {},
    }
    let deps = &process.depends_on;
    let n = dependency_count(deps);
    let mut k: usize = 0;
    while k < n
        invariant
            i < ps.len(),
            name@ == ps[i as int].0,
            !blank(ps[i as int].0),
            !blank(ps[i as int].1.cmd),
            ps[i as int].1.ready is Some ==> ready_error(ps[i as int].0, ps[i as int].1.ready->0) is None,
            n == ps[i as int].1.depends_on.len(),
            process@ == ps[i as int].1,
            dependency_entries(*deps) == ps[i as int].1.depends_on,
            ps == config@.processes,
            0 <= k <= n,
            forall|k2: int| 0 <= k2 < k ==> !unknown_dependency(ps, i as int, k2),
        decreases n - k,
    {
        let entry = dependency_at(deps, k);
        let dependency_name = entry.unwrap().0;
        let found = process_index_of(&config.processes, dependency_name.as_str());
        if found.is_none() {
            proof {
                assert(first_unknown_dependency(ps, i as int, k as int));
                let c = choose|c: int| first_unknown_dependency(ps, i as int, c);
                assert(c == k) by {
                    if c < k {
                        assert(!unknown_dependency(ps, i as int, c));
                    }
                    if k < c {
                        assert(!unknown_dependency(ps, i as int, k as int));
                    }
                }
            }
            let mut m = message_for(name.as_str(), "` depends on unknown process `");
            m.append(dependency_name.as_str());
            m.append("`");
            return Err(AppError::validation(m));
        }
        k = k + 1;
    }
    proof {
        assert(!exists|c: int| first_unknown_dependency(ps, i as int, c));
    }
    Ok(())
}

// ---------------------------------------------------------------------------
// Depth-first search for dependency cycles
// ---------------------------------------------------------------------------

/// The processes being visited form a chain of dependencies without repetition.
pub open spec fn stack_ok(ps: Processes, s: Seq<usize>) -> bool {
    &&& s.no_duplicates()
    &&& forall|k: int| 0 <= k < s.len() ==> #[trigger] s[k] < ps.len()
    &&& forall|k: int|
        0 <= k < s.len() - 1 ==> depends_on(ps, #[trigger] s[k] as int, s[k + 1] as int)
}

/// The finished processes, in the order they finished: none is being visited,
/// and each depends only on processes that finished before it.
pub open spec fn finished_ok(ps: Processes, f: Seq<usize>, s: Seq<usize>) -> bool {
    &&& f.no_duplicates()
    &&& forall|k: int| 0 <= k < f.len() ==> #[trigger] f[k] < ps.len()
    &&& forall|k: int| 0 <= k < f.len() ==> !s.contains(#[trigger] f[k])
    &&& forall|a: int, j: int|
        0 <= a < f.len() && #[trigger] depends_on(ps, f[a] as int, j) ==> exists|b: int|
            0 <= b < a && #[trigger] f[b] == j
}

proof fn lemma_stack_shorter(ps: Processes, s: Seq<usize>, x: usize)
    requires
        s.no_duplicates(),
        forall|k: int| 0 <= k < s.len() ==> #[trigger] s[k] < ps.len(),
        x < ps.len(),
        !s.contains(x),
    ensures
        s.len() < ps.len(),
{
    let t = s.push(x);
    let ti = t.map_values(|v: usize| v as int);
    assert(ti.no_duplicates()) by {
        assert forall|a: int, b: int| 0 <= a < ti.len() && 0 <= b < ti.len() && a != b implies ti[a]
            != ti[b] by {
            if a < s.len() && b < s.len() {
            } else if a == s.len() {
                assert(t[b] == s[b]);
            } else {
                assert(t[a] == s[a]);
            }
        }
    }
    ti.unique_seq_to_set();
    lemma_int_range(0, ps.len() as int);
    assert(ti.to_set().subset_of(set_int_range(0, ps.len() as int))) by {
        assert forall|v: int| ti.to_set().contains(v) implies set_int_range(0, ps.len() as int).contains(v) by {
            let a = choose|a: int| 0 <= a < ti.len() && ti[a] == v;
            if a < s.len() {
                assert(t[a] == s[a]);
            }
        }
    }
    lemma_len_subset(ti.to_set(), set_int_range(0, ps.len() as int));
}

proof fn lemma_descend(ps: Processes, f: Seq<usize>, p: Seq<int>, a: int, k: int)
    requires
        finished_ok(ps, f, Seq::empty()),
        is_dependency_path(ps, p),
        0 <= a < f.len(),
        f[a] == p[0],
        0 <= k < p.len(),
    ensures
        exists|b: int| 0 <= b <= a - k && f[b] == p[k],
    decreases k,
{
    if k > 0 {
        lemma_descend(ps, f, p, a, k - 1);
        let b = choose|b: int| 0 <= b <= a - (k - 1) && f[b] == p[k - 1];
        assert(depends_on(ps, p[k - 1], p[k]));
        assert(depends_on(ps, f[b] as int, p[k]));
        let c = choose|c: int| 0 <= c < b && #[trigger] f[c] == p[k];
        assert(0 <= c <= a - k && f[c] == p[k]);
    }
}

/// From a finished process no dependency cycle can be reached.
proof fn lemma_finished_reaches_no_cycle(ps: Processes, f: Seq<usize>, j: int)
    requires
        ps.len() <= usize::MAX,
        finished_ok(ps, f, Seq::empty()),
        0 <= j < ps.len(),
        f.contains(j as usize),
    ensures
        !reaches_cycle(ps, j),
{
    if reaches_cycle(ps, j) {
        let x = choose|x: int| 0 <= x < ps.len() && #[trigger] reaches(ps, j, x) && on_cycle(ps, x);
        let p = choose|p: Seq<int>|
            #[trigger] is_dependency_path(ps, p) && p.len() >= 1 && p[0] == j && p.last() == x;
        let a = choose|a: int| 0 <= a < f.len() && f[a] == j as usize;
        lemma_descend(ps, f, p, a, p.len() - 1);
        let b = choose|b: int| 0 <= b <= a - (p.len() - 1) && f[b] == p[p.len() - 1];
        let c = choose|c: Seq<int>|
            #[trigger] is_dependency_path(ps, c) && c.len() >= 2 && c[0] == x && c.last() == x;
        lemma_descend(ps, f, c, b, c.len() - 1);
        let b2 = choose|b2: int| 0 <= b2 <= b - (c.len() - 1) && f[b2] == c[c.len() - 1];
        assert(f[b2] == f[b]);
    }
}

/// Once every process has finished, no dependency cycle exists.
proof fn lemma_finished_acyclic(ps: Processes, f: Seq<usize>)
    requires
        ps.len() <= usize::MAX,
        finished_ok(ps, f, Seq::empty()),
        forall|i: int| 0 <= i < ps.len() ==> #[trigger] f.contains(i as usize),
    ensures
        !has_cycle(ps),
{
    if has_cycle(ps) {
        let i = choose|i: int| 0 <= i < ps.len() && #[trigger] on_cycle(ps, i);
        let p = choose|p: Seq<int>|
            #[trigger] is_dependency_path(ps, p) && p.len() >= 2 && p[0] == i && p.last() == i;
        assert(f.contains(i as usize));
        let a = choose|a: int| 0 <= a < f.len() && f[a] == i as usize;
        lemma_descend(ps, f, p, a, p.len() - 1);
        let b = choose|b: int| 0 <= b <= a - (p.len() - 1) && f[b] == p[p.len() - 1];
        assert(f[b] == f[a]);
    }
}

fn contains_index(v: &Vec<usize>, x: usize) -> (r: bool)
    ensures
        r == v@.contains(x),
{
    let mut k: usize = 0;
    while k < v.len()
        invariant
            k <= v.len(),
            forall|j: int| 0 <= j < k ==> v@[j] != x,
        decreases v.len() - k,
    {
        if v[k] == x {
            return true;
        }
        k = k + 1;
    }
    false
}

/// The position of the process with the given name (unique in a configuration).
pub open spec fn name_index(ps: Processes, name: Seq<char>) -> usize {
    choose|j: usize| (j as int) < ps.len() && ps[j as int].0 == name
}

/// The depth-first search for dependency cycles, from process `x`, with the
/// processes on the current chain in `stack` and the finished ones in `visited`,
/// in finishing order. It gives the finished processes afterwards, or the process
/// met again on the current chain, which the search reports. (A process whose name
/// is not known is not followed; validation rejects such names beforehand.)
pub open spec fn dfs_visit(ps: Processes, stack: Seq<usize>, visited: Seq<usize>, x: usize) -> Result<
    Seq<usize>,
    usize,
>
    decreases ps.len() - stack.len(), 0int,
{
    if visited.contains(x) {
        Ok(visited)
    } else if stack.contains(x) {
        Err(x)
    } else if stack.len() >= ps.len() || x >= ps.len() {
        Ok(visited)
    } else {
        dfs_children(ps, stack.push(x), visited, x, 0)
    }
}

/// The search through the dependencies of process `x` from the `k`-th on, in the
/// order they were written; once all are done, `x` is finished.
pub open spec fn dfs_children(
    ps: Processes,
    stack: Seq<usize>,
    visited: Seq<usize>,
    x: usize,
    k: nat,
) -> Result<Seq<usize>, usize>
    decreases ps.len() - stack.len(), ps[x as int].1.depends_on.len() - k + 1,
{
    if k >= ps[x as int].1.depends_on.len() {
        Ok(visited.push(x))
    } else {
        match dfs_visit(ps, stack, visited, name_index(ps, ps[x as int].1.depends_on[k as int].0)) {
            Ok(v) => dfs_children(ps, stack, v, x, k + 1),
            Err(y) => Err(y),
        }
    }
}

/// The search started from each process in configuration order, `i` on.
pub open spec fn dfs_from(ps: Processes, i: int, visited: Seq<usize>) -> Result<Seq<usize>, usize>
    decreases ps.len() - i,
{
    if i < 0 || i >= ps.len() {
        Ok(visited)
    } else {
        match dfs_visit(ps, Seq::empty(), visited, i as usize) {
            Ok(v) => dfs_from(ps, i + 1, v),
            Err(y) => Err(y),
        }
    }
}

fn visit_process(
    name: &str,
    config: &DevappConfig,
    visiting: &mut Vec<usize>,
    visited: &mut Vec<usize>,
    Ghost(root): Ghost<int>,
) -> (r: Result<(), AppError>)
    requires
        0 <= root < config@.processes.len(),
        old(visiting)@.len() > 0 ==> old(visiting)@[0] == root,
        old(visiting)@.len() == 0 ==> config@.processes[root].0 == name@,
        config@.processes.len() <= usize::MAX,
        dependencies_known(config@.processes),
        is_process(config@.processes, name@),
        stack_ok(config@.processes, old(visiting)@),
        finished_ok(config@.processes, old(visited)@, old(visiting)@),
        old(visiting)@.len() > 0 ==> names_dependency(
            config@.processes,
            old(visiting)@.last() as int,
            name@,
        ),
    ensures
        r is Ok ==> {
            &&& final(visiting)@ == old(visiting)@
            &&& final(visited)@.len() >= old(visited)@.len()
            &&& final(visited)@.subrange(0, old(visited)@.len() as int) == old(visited)@
            &&& finished_ok(config@.processes, final(visited)@, old(visiting)@)
            &&& forall|j: int|
                0 <= j < config@.processes.len() && config@.processes[j].0 == name@
                    ==> final(visited)@.contains(j as usize)
        },
        r matches Err(e) ==> exists|i: int|
            0 <= i < config@.processes.len() && on_cycle(config@.processes, i) && reaches(
                config@.processes,
                root,
                i,
            ) && e@ == AppErrorView::Validation(cycle_message(config@.processes[i].0)),
        match dfs_visit(
            config@.processes,
            old(visiting)@,
            old(visited)@,
            name_index(config@.processes, name@),
        ) {
            Ok(v) => r is Ok && final(visited)@ == v,
            Err(x) => r is Err && r->Err_0@ == AppErrorView::Validation(
                cycle_message(config@.processes[x as int].0),
            ),
        },
    decreases config@.processes.len() - old(visiting)@.len(),
{
    let ghost ps = config@.processes;
    let idx = match process_index_of(&config.processes, name) {
        Some(i) => i,
        None => {
            let mut m = String::from_str("unknown process `");
            m.append(name);
            m.append("`");
            return Err(AppError::validation(m));
        },
    };
    proof {
        if old(visiting)@.len() == 0 {
            assert(ps[root].0 == name@);
            assert(root == idx);
        }
        assert(exists|j: usize| (j as int) < ps.len() && ps[j as int].0 == name@) by {
            assert((idx as int) < ps.len() && ps[idx as int].0 == name@);
        }
        let j = name_index(ps, name@);
        assert(j == idx) by {
            if j != idx {
                assert(ps[j as int].0 != name@);
            }
        }
    }
    if contains_index(visited, idx) {
        return Ok(());
    }
    if contains_index(visiting, idx) {
        proof {
            let s = visiting@;
            let pos = choose|pos: int| 0 <= pos < s.len() && s[pos] == idx;
            let p = s.subrange(pos, s.len() as int).map_values(|v: usize| v as int).push(
                idx as int,
            );
            assert(depends_on(ps, s.last() as int, idx as int));
            assert forall|k: int| 0 <= k < p.len() - 1 implies depends_on(
                ps,
                #[trigger] p[k],
                p[k + 1],
            ) by {
                if k < s.len() - pos - 1 {
                    assert(depends_on(ps, s[pos + k] as int, s[pos + k + 1] as int));
                } else {
                    assert(p[k] == s.last() as int);
                }
            }
            assert(is_dependency_path(ps, p));
            assert(on_cycle(ps, idx as int));
            let q = s.subrange(0, pos + 1).map_values(|v: usize| v as int);
            assert forall|k: int| 0 <= k < q.len() - 1 implies depends_on(
                ps,
                #[trigger] q[k],
                q[k + 1],
            ) by {
                assert(depends_on(ps, s[k] as int, s[k + 1] as int));
            }
            assert(is_dependency_path(ps, q));
            assert(q[0] == root && q.last() == idx);
            assert(reaches(ps, root, idx as int));
        }
        let mut m = String::from_str("dependency cycle detected at process `");
        m.append(name);
        m.append("`");
        return Err(AppError::validation(m));
    }
    proof {
        lemma_stack_shorter(ps, visiting@, idx);
    }
    let ghost visited0 = visited@;
    visiting.push(idx);
    proof {
        let s = visiting@;
        assert(s.no_duplicates()) by {
            assert forall|a: int, b: int| 0 <= a < s.len() && 0 <= b < s.len() && a != b implies s[a]
                != s[b] by {
                if a < s.len() - 1 && b < s.len() - 1 {
                    assert(s[a] == old(visiting)@[a] && s[b] == old(visiting)@[b]);
                } else if a == s.len() - 1 {
                    assert(s[b] == old(visiting)@[b]);
                } else {
                    assert(s[a] == old(visiting)@[a]);
                }
            }
        }
        assert forall|k: int| 0 <= k < s.len() - 1 implies depends_on(
            ps,
            #[trigger] s[k] as int,
            s[k + 1] as int,
        ) by {
            if k < s.len() - 2 {
                assert(s[k] == old(visiting)@[k] && s[k + 1] == old(visiting)@[k + 1]);
            } else {
                assert(s[k] == old(visiting)@.last());
            }
        }
        assert forall|k: int| 0 <= k < visited@.len() implies !s.contains(#[trigger] visited@[k]) by {
            if s.contains(visited@[k]) {
                let q = choose|q: int| 0 <= q < s.len() && s[q] == visited@[k];
                if q < s.len() - 1 {
                    assert(old(visiting)@[q] == visited@[k]);
                }
            }
        }
    }
    proof {
        assert(dfs_visit(ps, old(visiting)@, old(visited)@, idx) == dfs_children(
            ps,
            visiting@,
            visited@,
            idx,
            0,
        ));
    }
    let process = process_at(&config.processes, idx).unwrap().1;
    let deps = &process.depends_on;
    let n = dependency_count(deps);
    let mut k: usize = 0;
    while k < n
        invariant
            ps == config@.processes,
            ps.len() <= usize::MAX,
            0 <= root < ps.len(),
            old(visiting)@.len() > 0 ==> old(visiting)@[0] == root,
            old(visiting)@.len() == 0 ==> root == idx,
            old(visiting)@.len() < ps.len(),
            dependencies_known(ps),
            idx < ps.len(),
            dependency_entries(*deps) == ps[idx as int].1.depends_on,
            ps[idx as int].0 == name@,
            process@ == ps[idx as int].1,
            n == ps[idx as int].1.depends_on.len(),
            0 <= k <= n,
            visiting@ == old(visiting)@.push(idx),
            name_index(ps, name@) == idx,
            dfs_visit(ps, old(visiting)@, old(visited)@, idx) == dfs_children(
                ps,
                visiting@,
                visited@,
                idx,
                k as nat,
            ),
            stack_ok(ps, visiting@),
            finished_ok(ps, visited@, visiting@),
            visited@.len() >= visited0.len(),
            visited@.subrange(0, visited0.len() as int) == visited0,
            visited0 == old(visited)@,
            forall|k2: int, j: int|
                0 <= k2 < k && 0 <= j < ps.len() && ps[j].0 == ps[idx as int].1.depends_on[k2].0
                    ==> visited@.contains(j as usize),
        decreases n - k,
    {
        let dependency_name = dependency_at(deps, k).unwrap().0;
        proof {
            assert(visiting@.last() == idx);
            assert(ps[idx as int].1.depends_on[k as int].0 == dependency_name@);
            assert(names_dependency(ps, idx as int, dependency_name@));
            assert(is_process(ps, ps[idx as int].1.depends_on[k as int].0));
        }
        let ghost before = visited@;
        proof {
            assert(visiting@[0] == root) by {
                if old(visiting)@.len() > 0 {
                    assert(visiting@[0] == old(visiting)@[0]);
                }
            }
        }
        let result = visit_process(dependency_name.as_str(), config, visiting, visited, Ghost(root));
        match result {
            Ok(()) => {},
            Err(e) => {
                return Err(e);
            },
        }
        proof {
            assert(dfs_children(ps, visiting@, visited@, idx, (k + 1) as nat) == dfs_children(
                ps,
                visiting@,
                before,
                idx,
                k as nat,
            ));
        }
        proof {
            assert forall|k2: int, j: int|
                0 <= k2 < k + 1 && 0 <= j < ps.len() && ps[j].0
                    == ps[idx as int].1.depends_on[k2].0 implies visited@.contains(j as usize) by {
                if k2 < k {
                    assert(before.contains(j as usize));
                    let q = choose|q: int| 0 <= q < before.len() && before[q] == j as usize;
                    assert(visited@.subrange(0, before.len() as int)[q] == before[q]);
                    assert(visited@[q] == j as usize);
                }
            }
            assert(visited@.subrange(0, visited0.len() as int) =~= visited0) by {
                assert forall|q: int| 0 <= q < visited0.len() implies visited@[q] == visited0[q] by {
                    assert(visited@.subrange(0, before.len() as int)[q] == before[q]);
                    assert(before.subrange(0, visited0.len() as int)[q] == visited0[q]);
                }
            }
        }
        k = k + 1;
    }
    let ghost visited1 = visited@;
    visiting.pop();
    visited.push(idx);
    proof {
        let f = visited@;
        let s0 = old(visiting)@;
        assert(visiting@ =~= s0);
        assert(!visited1.contains(idx)) by {
            if visited1.contains(idx) {
                let q = choose|q: int| 0 <= q < visited1.len() && visited1[q] == idx;
                assert(old(visiting)@.push(idx).contains(visited1[q]));
            }
        }
        assert(f.no_duplicates()) by {
            assert forall|a: int, b: int| 0 <= a < f.len() && 0 <= b < f.len() && a != b implies f[a]
                != f[b] by {
                if a < f.len() - 1 && b < f.len() - 1 {
                    assert(f[a] == visited1[a] && f[b] == visited1[b]);
                } else if a == f.len() - 1 {
                    assert(f[b] == visited1[b]);
                } else {
                    assert(f[a] == visited1[a]);
                }
            }
        }
        assert forall|q: int| 0 <= q < f.len() implies !s0.contains(#[trigger] f[q]) by {
            if q < f.len() - 1 {
                assert(f[q] == visited1[q]);
                if s0.contains(f[q]) {
                    let w = choose|w: int| 0 <= w < s0.len() && s0[w] == f[q];
                    assert(s0.push(idx)[w] == f[q]);
                }
            } else {
                if s0.contains(idx) {
                    let w = choose|w: int| 0 <= w < s0.len() && s0[w] == idx;
                    assert(s0.push(idx)[w] == s0.push(idx)[s0.len() as int]);
                }
            }
        }
        assert forall|a: int, j: int|
            0 <= a < f.len() && #[trigger] depends_on(ps, f[a] as int, j) implies exists|b: int|
            0 <= b < a && #[trigger] f[b] == j by {
            if a < f.len() - 1 {
                assert(f[a] == visited1[a]);
                let b = choose|b: int| 0 <= b < a && #[trigger] visited1[b] == j;
                assert(f[b] == visited1[b]);
            } else {
                assert(f[a] == idx);
                let kk = choose|kk: int|
                    0 <= kk < ps[idx as int].1.depends_on.len()
                        && #[trigger] ps[idx as int].1.depends_on[kk].0 == ps[j].0;
                assert(visited1.contains(j as usize));
                let b = choose|b: int| 0 <= b < visited1.len() && visited1[b] == j as usize;
                assert(f[b] == visited1[b]);
            }
        }
        assert(f.subrange(0, visited0.len() as int) =~= visited0) by {
            assert forall|q: int| 0 <= q < visited0.len() implies f[q] == visited0[q] by {
                assert(visited1.subrange(0, visited0.len() as int)[q] == visited0[q]);
            }
        }
        assert forall|j: int|
            0 <= j < ps.len() && ps[j].0 == name@ implies f.contains(j as usize) by {
            assert(j == idx);
            assert(f[f.len() - 1] == idx);
        }
    }
    Ok(())
}

/// Validates a configuration: it declares processes, each with a name, a command
/// and well-formed readiness check and dependencies, and no process depends on
/// itself, directly or not.
pub fn validate_graph(config: &DevappConfig) -> (r: Result<(), AppError>)
    ensures
        config@.processes.len() == 0 ==> result_view(r) == Err::<(), AppErrorView>(
            AppErrorView::Validation("configuration must declare at least one process"@),
        ),
        forall|i: int|
            config@.processes.len() > 0 && first_failing_process(config@.processes, i)
                ==> result_view(r) == Err::<(), AppErrorView>(
                AppErrorView::Validation(process_error(config@.processes, i)->0),
            ),
        config@.processes.len() > 0 && (forall|i: int|
            0 <= i < config@.processes.len() ==> process_error(config@.processes, i) is None)
            ==> {
            &&& (r is Ok <==> !has_cycle(config@.processes))
            &&& (r is Ok <==> dfs_from(config@.processes, 0, Seq::empty()) is Ok)
            &&& r matches Err(e) ==> dfs_from(config@.processes, 0, Seq::empty()) matches Err(x)
                && e@ == AppErrorView::Validation(cycle_message(config@.processes[x as int].0))
            &&& r matches Err(e) ==> exists|i: int, x: int|
                first_reaching_cycle(config@.processes, i) && 0 <= x < config@.processes.len()
                    && reaches(config@.processes, i, x) && on_cycle(config@.processes, x) && e@
                    == AppErrorView::Validation(cycle_message(config@.processes[x].0))
        },
{
    let ghost ps = config@.processes;
    let n = process_count(&config.processes);
    if n == 0 {
        return Err(
            AppError::validation(String::from_str("configuration must declare at least one process")),
        );
    }
    let mut i: usize = 0;
    while i < n
        invariant
            ps == config@.processes,
            n == ps.len(),
            0 <= i <= n,
            forall|j: int| 0 <= j < i ==> process_error(ps, j) is None,
        decreases n - i,
    {
        let entry = process_at(&config.processes, i).unwrap();
        let checked = validate_process(config, i, entry.0, entry.1);
        if checked.is_err() {
            proof {
                assert(first_failing_process(ps, i as int));
                assert forall|j: int| first_failing_process(ps, j) implies j == i by {
                    if j < i {
                    } else if i < j {
                    }
                }
            }
            return checked;
        }
        i = i + 1;
    }
    proof {
        assert(dependencies_known(ps)) by {
            assert forall|a: int, k: int|
                0 <= a < ps.len() && 0 <= k < ps[a].1.depends_on.len() implies is_process(
                ps,
                #[trigger] ps[a].1.depends_on[k].0,
            ) by {
                assert(process_error(ps, a) is None);
                if !is_process(ps, ps[a].1.depends_on[k].0) {
                    assert(unknown_dependency(ps, a, k));
                    lemma_first_unknown_exists(ps, a, k);
                }
            }
        }
    }
    let mut visiting: Vec<usize> = Vec::new();
    let mut visited: Vec<usize> = Vec::new();
    let mut i: usize = 0;
    while i < n
        invariant
            ps == config@.processes,
            n == ps.len(),
            0 <= i <= n,
            dependencies_known(ps),
            forall|j: int| 0 <= j < n ==> process_error(ps, j) is None,
            visiting@ == Seq::<usize>::empty(),
            forall|a: int, b: int| 0 <= a < n && 0 <= b < n && a != b ==> ps[a].0 != ps[b].0,
            dfs_from(ps, 0, Seq::empty()) == dfs_from(ps, i as int, visited@),
            finished_ok(ps, visited@, visiting@),
            forall|j: int| 0 <= j < i ==> #[trigger] visited@.contains(j as usize),
        decreases n - i,
    {
        let name = process_at(&config.processes, i).unwrap().0;
        let ghost before = visited@;
        proof {
            assert(is_process(ps, ps[i as int].0));
            assert(exists|j: usize| (j as int) < ps.len() && ps[j as int].0 == ps[i as int].0) by {
                assert((i as int) < ps.len() && ps[i as int].0 == ps[i as int].0);
            }
            let j = name_index(ps, ps[i as int].0);
            assert(j == i) by {
                if j != i {
                    assert(ps[j as int].0 != ps[i as int].0);
                }
            }
        }
        let result = visit_process(
            name.as_str(),
            config,
            &mut visiting,
            &mut visited,
            Ghost(i as int),
        );
        match result {
            Ok(()) => {},
            Err(e) => {
                proof {
                    let x = choose|x: int|
                        0 <= x < ps.len() && on_cycle(ps, x) && reaches(ps, i as int, x) && e@
                            == AppErrorView::Validation(cycle_message(ps[x].0));
                    assert(reaches_cycle(ps, i as int));
                    assert forall|j: int| 0 <= j < i implies !reaches_cycle(ps, j) by {
                        assert(before.contains(j as usize));
                        lemma_finished_reaches_no_cycle(ps, before, j);
                    }
                    assert(first_reaching_cycle(ps, i as int));
                    assert(has_cycle(ps));
                }
                return Err(e);
            },
        }
        proof {
            assert(result is Ok);
            assert(visited@.len() >= before.len());
            assert(visited@.subrange(0, before.len() as int) == before);
            assert forall|j: int| 0 <= j < i + 1 implies #[trigger] visited@.contains(j as usize) by {
                if j < i {
                    assert(before.contains(j as usize));
                    let q = choose|q: int| 0 <= q < before.len() && before[q] == j as usize;
                    assert(visited@.subrange(0, before.len() as int)[q] == before[q]);
                    assert(visited@[q] == j as usize);
                } else {
                    assert(ps[j].0 == name@);
                }
            }
        }
        i = i + 1;
    }
    proof {
        lemma_finished_acyclic(ps, visited@);
    }
    Ok(())
}

/// A dependency that names no process means a first such dependency exists.
proof fn lemma_first_unknown_exists(ps: Processes, i: int, k: int)
    requires
        0 <= k < ps[i].1.depends_on.len(),
        unknown_dependency(ps, i, k),
    ensures
        exists|c: int| first_unknown_dependency(ps, i, c),
    decreases k,
{
    if forall|k2: int| 0 <= k2 < k ==> !unknown_dependency(ps, i, k2) {
        assert(first_unknown_dependency(ps, i, k));
    } else {
        let k2 = choose|k2: int| 0 <= k2 < k && unknown_dependency(ps, i, k2);
        lemma_first_unknown_exists(ps, i, k2);
    }
}

} // verus!

verus! {

/// Lists, for each process in order, the names of the processes it depends on,
/// in the order they were written.
pub fn process_dependency_statuses(config: &DevappConfig) -> (r: Vec<(String, Vec<String>)>)
    ensures
        r@.len() == config@.processes.len(),
        forall|i: int|
            0 <= i < r@.len() ==> {
                &&& (#[trigger] r@[i]).0@ == config@.processes[i].0
                &&& r@[i].1@.map_values(|s: String| s@) == config@.processes[i].1.depends_on.map_values(
                    |e: (Seq<char>, DependencyCondition)| e.0,
                )
            },
{
    let n = process_count(&config.processes);
    let mut r: Vec<(String, Vec<String>)> = Vec::new();
    let mut i: usize = 0;
    while i < n
        invariant
            n == config@.processes.len(),
            i <= n,
            r@.len() == i,
            forall|q: int|
                0 <= q < i ==> {
                    &&& (#[trigger] r@[q]).0@ == config@.processes[q].0
                    &&& r@[q].1@.map_values(|s: String| s@) == config@.processes[q].1.depends_on.map_values(
                        |e: (Seq<char>, DependencyCondition)| e.0,
                    )
                },
        decreases n - i,
    {
        let entry = process_at(&config.processes, i).unwrap();
        let deps = &entry.1.depends_on;
        let m = dependency_count(deps);
        let mut names: Vec<String> = Vec::new();
        let mut k: usize = 0;
        while k < m
            invariant
                m == dependency_entries(*deps).len(),
                k <= m,
                names@.len() == k,
                forall|q: int|
                    0 <= q < k ==> #[trigger] names@[q]@ == dependency_entries(*deps)[q].0,
            decreases m - k,
        {
            let name = dependency_at(deps, k).unwrap().0;
            names.push(name.clone());
            k = k + 1;
        }
        proof {
            assert(names@.map_values(|s: String| s@) =~= config@.processes[i as int].1.depends_on.map_values(
                |e: (Seq<char>, DependencyCondition)| e.0,
            ));
        }
        r.push((entry.0.clone(), names));
        i = i + 1;
    }
    r
}

} // verus!

verus! {

/// Process `i` depends on some process.
pub open spec fn has_successor(ps: Processes, i: int) -> bool {
    exists|j: int| depends_on(ps, i, j)
}

/// The process that a walk along dependencies takes after process `i`.
pub open spec fn successor(ps: Processes, i: int) -> int {
    choose|j: int| depends_on(ps, i, j)
}

/// A walk of `k` steps along dependencies from `start`.
pub open spec fn dependency_walk(ps: Processes, start: int, k: nat) -> Seq<int>
    decreases k,
{
    if k == 0 {
        seq![start]
    } else {
        let w = dependency_walk(ps, start, (k - 1) as nat);
        w.push(successor(ps, w.last()))
    }
}

proof fn lemma_walk(ps: Processes, start: int, k: nat)
    requires
        0 <= start < ps.len(),
        forall|i: int| 0 <= i < ps.len() ==> #[trigger] has_successor(ps, i),
    ensures
        dependency_walk(ps, start, k).len() == k + 1,
        dependency_walk(ps, start, k)[0] == start,
        is_dependency_path(ps, dependency_walk(ps, start, k)),
    decreases k,
{
    if k > 0 {
        lemma_walk(ps, start, (k - 1) as nat);
        let w = dependency_walk(ps, start, (k - 1) as nat);
        let last = w.last();
        assert(0 <= last < ps.len());
        assert(has_successor(ps, last));
        assert(depends_on(ps, last, successor(ps, last)));
        let v = dependency_walk(ps, start, k);
        assert(v == w.push(successor(ps, last)));
        assert forall|q: int| 0 <= q < v.len() - 1 implies depends_on(ps, #[trigger] v[q], v[q + 1]) by {
            if q < w.len() - 1 {
                assert(v[q] == w[q] && v[q + 1] == w[q + 1]);
            }
        }
    }
}

proof fn lemma_distinct_bounded(s: Seq<int>, n: int)
    requires
        n >= 0,
        s.no_duplicates(),
        forall|k: int| 0 <= k < s.len() ==> 0 <= #[trigger] s[k] < n,
    ensures
        s.len() <= n,
{
    s.unique_seq_to_set();
    lemma_int_range(0, n);
    assert(s.to_set().subset_of(set_int_range(0, n)));
    lemma_len_subset(s.to_set(), set_int_range(0, n));
}

/// A configuration without dependency cycles, whose dependencies all name
/// processes, has a process that depends on nothing: there is always somewhere to
/// start.
#[verifier::rlimit(40)]
pub proof fn law_acyclic_configuration_has_a_start(ps: Processes)
    requires
        ps.len() > 0,
        dependencies_known(ps),
        !has_cycle(ps),
    ensures
        exists|i: int| 0 <= i < ps.len() && #[trigger] ps[i].1.depends_on.len() == 0,
{
    if forall|i: int| 0 <= i < ps.len() ==> #[trigger] ps[i].1.depends_on.len() > 0 {
        assert forall|i: int| 0 <= i < ps.len() implies #[trigger] has_successor(ps, i) by {
            assert(ps[i].1.depends_on.len() > 0);
            assert(is_process(ps, ps[i].1.depends_on[0].0));
            let j = choose|j: int| 0 <= j < ps.len() && #[trigger] ps[j].0 == ps[i].1.depends_on[0].0;
            assert(names_dependency(ps, i, ps[j].0));
            assert(depends_on(ps, i, j));
        }
        let n = ps.len();
        lemma_walk(ps, 0, n);
        let w = dependency_walk(ps, 0, n);
        assert(!w.no_duplicates()) by {
            if w.no_duplicates() {
                lemma_distinct_bounded(w, n as int);
            }
        }
        let (a, b) = choose|a: int, b: int|
            0 <= a < w.len() && 0 <= b < w.len() && a != b && w[a] == w[b];
        let (lo, hi) = if a < b {
            (a, b)
        } else {
            (b, a)
        };
        let p = w.subrange(lo, hi + 1);
        assert forall|q: int| 0 <= q < p.len() - 1 implies depends_on(ps, #[trigger] p[q], p[q + 1]) by {
            assert(p[q] == w[lo + q] && p[q + 1] == w[lo + q + 1]);
        }
        assert(is_dependency_path(ps, p));
        assert(p[0] == w[lo] && p.last() == w[hi]);
        assert(on_cycle(ps, w[lo]));
        assert(has_cycle(ps));
    }
}

} // verus!
