//! The requests the user interface sends, and the small decisions its commands
//! make before they hand over to the supervisor.
use vstd::prelude::*;
use vstd::string::{StrSliceExecFns, StringExecFns};

use crate::error::{AppError, AppErrorView};
use crate::text::str_equal;

verus! {

pub struct SaveProjectRequest {
    pub id: Option<String>,
    pub name: String,
    pub base_dir: String,
    pub config_source: Option<String>,
}

pub struct LoadProjectConfigRequest {
    pub project_id: String,
    pub yaml: Option<String>,
}

pub struct SaveProjectConfigRequest {
    pub project_id: String,
    pub yaml: String,
}

/// Which project the application was launched on, if any; such a launch locks the
/// project list.
pub struct LaunchProjectInfo {
    pub project_id: Option<String>,
    pub locked: bool,
}

pub struct ProjectActionRequest {
    pub project_id: String,
}

pub struct ProcessActionRequest {
    pub process_name: String,
}

pub struct OpenTerminalRequest {
    pub project_id: String,
    pub title: Option<String>,
    pub cols: Option<u16>,
    pub rows: Option<u16>,
}

pub struct WriteTerminalRequest {
    pub terminal_id: String,
    pub data: String,
}

pub struct ResizeTerminalRequest {
    pub terminal_id: String,
    pub cols: u16,
    pub rows: u16,
}

pub struct CloseTerminalRequest {
    pub terminal_id: String,
}

/// The model of an optional text.
pub open spec fn opt_view(o: Option<String>) -> Option<Seq<char>> {
    match o {
        Some(s) => Some(s@),
        None => None,
    }
}

impl LaunchProjectInfo {
    /// What is reported of the launch: the project, and whether the list is locked.
    pub fn from_launch(launch_project_id: &Option<String>) -> (r: Self)
        ensures
            opt_view(r.project_id) == opt_view(*launch_project_id),
            r.locked == launch_project_id.is_some(),
    {
        let project_id = match launch_project_id {
            Some(id) => Some(id.clone()),
            None => None,
        };
        LaunchProjectInfo { project_id, locked: launch_project_id.is_some() }
    }
}

/// The project list cannot be changed while the application runs on a launched
/// project.
pub fn check_launch_locked(launch_project_id: &Option<String>) -> (r: Result<(), AppError>)
    ensures
        r is Ok <==> launch_project_id is None,
        r matches Err(e) ==> e@ == AppErrorView::LaunchLocked,
{
    if launch_project_id.is_some() {
        return Err(AppError::LaunchLocked);
    }
    Ok(())
}

/// While the application runs on a launched project, only that project may be
/// started.
pub fn check_launch_allows(launch_project_id: &Option<String>, project_id: &str) -> (r: Result<
    (),
    AppError,
>)
    ensures
        r is Ok <==> match launch_project_id {
            Some(locked) => locked@ == project_id@,
            None => true,
        },
        r matches Err(e) ==> e@ == AppErrorView::LaunchLocked,
{
    match launch_project_id {
        Some(locked) => {
            if !str_equal(locked.as_str(), project_id) {
                return Err(AppError::LaunchLocked);
            }
        },
        None => {},
    }
    Ok(())
}

/// Columns of a terminal opened without a width.
pub const DEFAULT_TERMINAL_COLS: u16 = 100;

/// Rows of a terminal opened without a height.
pub const DEFAULT_TERMINAL_ROWS: u16 = 28;

impl OpenTerminalRequest {
    /// The title and size of the terminal to open: as requested, else the project's
    /// name followed by ` shell`, and the default size.
    pub fn settings(&self, project_name: &str) -> (r: (String, u16, u16))
        ensures
            r.0@ == match self.title {
                Some(t) => t@,
                None => project_name@ + " shell"@,
            },
            r.1 == match self.cols {
                Some(c) => c,
                None => DEFAULT_TERMINAL_COLS,
            },
            r.2 == match self.rows {
                Some(c) => c,
                None => DEFAULT_TERMINAL_ROWS,
            },
    {
        let title = match &self.title {
            Some(t) => t.clone(),
            None => {
                let mut t = String::from_str(project_name);
                t.append(" shell");
                t
            },
        };
        let cols = match self.cols {
            Some(c) => c,
            None => DEFAULT_TERMINAL_COLS,
        };
        let rows = match self.rows {
            Some(c) => c,
            None => DEFAULT_TERMINAL_ROWS,
        };
        (title, cols, rows)
    }
}

/// The label of a project's window: `project-` and the project's id.
pub fn project_window_label(project_id: &str) -> (r: String)
    ensures
        r@ == "project-"@ + project_id@,
{
    String::from_str("project-").concat(project_id)
}

/// The address a project's window opens: it names the project and asks for an
/// automatic start.
pub fn project_window_url(project_id: &str) -> (r: String)
    ensures
        r@ == "?projectId="@ + project_id@ + "&autorun=1"@,
{
    let mut r = String::from_str("?projectId=");
    r.append(project_id);
    r.append("&autorun=1");
    r
}

/// The title of a project's window.
pub fn project_window_title(project_name: &str) -> (r: String)
    ensures
        r@ == project_name@ + " — devapp"@,
{
    String::from_str(project_name).concat(" — devapp")
}

/// A command-line argument is an option when it starts with `--`.
pub open spec fn is_option(arg: Seq<char>) -> bool {
    arg.len() >= 2 && arg[0] == '-' && arg[1] == '-'
}

/// The position of the first command-line argument (after the program's name)
/// that is not an option: the configuration path the application is launched on.
pub fn first_positional_argument(args: &Vec<String>) -> (r: Option<usize>)
    ensures
        match r {
            Some(i) => 1 <= i < args@.len() && !is_option(args@[i as int]@) && forall|j: int|
                1 <= j < i ==> is_option(#[trigger] args@[j]@),
            None => forall|j: int| 1 <= j < args@.len() ==> is_option(#[trigger] args@[j]@),
        },
{
    let mut i: usize = 1;
    while i < args.len()
        invariant
            1 <= i,
            i <= args@.len() || args@.len() == 0,
            forall|j: int| 1 <= j < i && j < args@.len() ==> is_option(#[trigger] args@[j]@),
        decreases args.len() - i,
    {
        let arg = args[i].as_str();
        let n = arg.unicode_len();
        let option = n >= 2 && arg.get_char(0) == '-' && arg.get_char(1) == '-';
        if !option {
            return Some(i);
        }
        i = i + 1;
    }
    None
}

} // verus!
