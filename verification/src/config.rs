use indexmap::IndexMap;
use vstd::prelude::*;
use vstd::string::StringExecFns;

use crate::ordered_map::{dependency_clone, dependency_entries, process_entries};
use crate::text::{decimal, u32_to_decimal};

verus! {

/// The only version of the configuration format that is understood.
pub const SUPPORTED_CONFIG_VERSION: u32 = 1;

/// A project's configuration file: its format version, the environment shared by
/// every process, and the processes keyed by name, in the order they were written.
#[derive(Debug)]
pub struct DevappConfig {
    pub version: u32,
    pub env: IndexMap<String, String>,
    pub processes: IndexMap<String, ProcessConfig>,
}

/// One process of a configuration.
#[derive(Debug)]
pub struct ProcessConfig {
    pub kind: ProcessKind,
    pub cmd: String,
    pub depends_on: IndexMap<String, DependencyCondition>,
    pub ready: Option<ReadyConfig>,
}

/// A `Task` finishes on its own; a `Service` keeps running.
#[derive(Debug, Clone, Copy, PartialEq, Eq, Structural)]
pub enum ProcessKind {
    Task,
    Service,
}

/// What a dependency must reach before its dependent may start.
#[derive(Debug, Clone, Copy, PartialEq, Eq, Structural)]
pub enum DependencyCondition {
    Success,
    Ready,
}

/// How the readiness of a service is checked.
#[derive(Debug, Clone, PartialEq, Eq)]
pub enum ReadyConfig {
    Http(HttpReadyConfig),
    Log(LogReadyConfig),
    Delay(DelayReadyConfig),
    Command(CommandReadyConfig),
}

#[derive(Debug, Clone, PartialEq, Eq)]
pub struct HttpReadyConfig {
    pub url: String,
    pub interval_ms: Option<u64>,
    pub timeout_ms: Option<u64>,
}

#[derive(Debug, Clone, PartialEq, Eq)]
pub struct LogReadyConfig {
    pub pattern: String,
    pub regex: bool,
    pub timeout_ms: Option<u64>,
}

#[derive(Debug, Clone, PartialEq, Eq)]
pub struct DelayReadyConfig {
    pub duration_ms: u64,
}

#[derive(Debug, Clone, PartialEq, Eq)]
pub struct CommandReadyConfig {
    pub cmd: String,
    pub interval_ms: Option<u64>,
    pub timeout_ms: Option<u64>,
}

/// Model of a readiness check.
pub enum ReadyConfigView {
    Http { url: Seq<char>, interval_ms: Option<u64>, timeout_ms: Option<u64> },
    Log { pattern: Seq<char>, regex: bool, timeout_ms: Option<u64> },
    Delay { duration_ms: u64 },
    Command { cmd: Seq<char>, interval_ms: Option<u64>, timeout_ms: Option<u64> },
}

impl View for ReadyConfig {
    type V = ReadyConfigView;

    open spec fn view(&self) -> ReadyConfigView {
        match self {
            ReadyConfig::Http(c) => ReadyConfigView::Http {
                url: c.url@,
                interval_ms: c.interval_ms,
                timeout_ms: c.timeout_ms,
            },
            ReadyConfig::Log(c) => ReadyConfigView::Log {
                pattern: c.pattern@,
                regex: c.regex,
                timeout_ms: c.timeout_ms,
            },
            ReadyConfig::Delay(c) => ReadyConfigView::Delay { duration_ms: c.duration_ms },
            ReadyConfig::Command(c) => ReadyConfigView::Command {
                cmd: c.cmd@,
                interval_ms: c.interval_ms,
                timeout_ms: c.timeout_ms,
            },
        }
    }
}

/// Model of a process: its dependencies are the entries of its `depends_on` map, in order.
pub struct ProcessConfigView {
    pub kind: ProcessKind,
    pub cmd: Seq<char>,
    pub depends_on: Seq<(Seq<char>, DependencyCondition)>,
    pub ready: Option<ReadyConfigView>,
}

impl View for ProcessConfig {
    type V = ProcessConfigView;

    open spec fn view(&self) -> ProcessConfigView {
        ProcessConfigView {
            kind: self.kind,
            cmd: self.cmd@,
            depends_on: dependency_entries(self.depends_on),
            ready: match self.ready {
                Some(r) => Some(r@),
                None => None,
            },
        }
    }
}

/// Model of a configuration: its version and its processes, in order.
pub struct DevappConfigView {
    pub version: u32,
    pub processes: Seq<(Seq<char>, ProcessConfigView)>,
}

impl View for DevappConfig {
    type V = DevappConfigView;

    open spec fn view(&self) -> DevappConfigView {
        DevappConfigView { version: self.version, processes: process_entries(self.processes) }
    }
}

impl ReadyConfig {
    /// A copy of the readiness check.
    pub fn duplicate(&self) -> (r: Self)
        ensures
            r@ == self@,
    {
        match self {
            ReadyConfig::Http(c) => ReadyConfig::Http(
                HttpReadyConfig {
                    url: c.url.clone(),
                    interval_ms: c.interval_ms,
                    timeout_ms: c.timeout_ms,
                },
            ),
            ReadyConfig::Log(c) => ReadyConfig::Log(
                LogReadyConfig {
                    pattern: c.pattern.clone(),
                    regex: c.regex,
                    timeout_ms: c.timeout_ms,
                },
            ),
            ReadyConfig::Delay(c) => ReadyConfig::Delay(DelayReadyConfig { duration_ms: c.duration_ms }),
            ReadyConfig::Command(c) => ReadyConfig::Command(
                CommandReadyConfig {
                    cmd: c.cmd.clone(),
                    interval_ms: c.interval_ms,
                    timeout_ms: c.timeout_ms,
                },
            ),
        }
    }
}

impl ProcessConfig {
    /// A copy of the process configuration.
    pub fn duplicate(&self) -> (r: Self)
        ensures
            r@ == self@,
    {
        let ready = match &self.ready {
            Some(r) => Some(r.duplicate()),
            None => None,
        };
        ProcessConfig {
            kind: self.kind,
            cmd: self.cmd.clone(),
            depends_on: dependency_clone(&self.depends_on),
            ready,
        }
    }
}

/// The message that rejects a configuration of an unsupported version.
pub open spec fn unsupported_version_message(version: u32) -> Seq<char> {
    "unsupported config version "@ + decimal(version as nat) + ", expected "@ + decimal(
        SUPPORTED_CONFIG_VERSION as nat,
    )
}

impl DevappConfig {
    /// Accepts exactly the supported format version.
    pub fn validate_version(&self) -> (r: Result<(), String>)
        ensures
            r is Ok <==> self.version == SUPPORTED_CONFIG_VERSION,
            r matches Err(m) ==> m@ == unsupported_version_message(self.version),
    {
        if self.version == SUPPORTED_CONFIG_VERSION {
            Ok(())
        } else {
            let mut m = String::from_str("unsupported config version ");
            let v = u32_to_decimal(self.version);
            m.append(v.as_str());
            m.append(", expected ");
            let s = u32_to_decimal(SUPPORTED_CONFIG_VERSION);
            m.append(s.as_str());
            Err(m)
        }
    }
}

} // verus!
