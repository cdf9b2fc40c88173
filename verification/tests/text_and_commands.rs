use devapp::commands::{
    check_launch_allows, check_launch_locked, first_positional_argument, project_window_label,
    project_window_title, project_window_url, LaunchProjectInfo, OpenTerminalRequest,
};
use devapp::error::AppError;
use devapp::git_info::{linked_worktree_name, split_path_segments, trim_text, GitInfo};
use devapp::text::{is_blank, is_whitespace, str_equal, u32_to_decimal};

#[test]
fn whitespace_matches_std() {
    for u in 0u32..=0x10FFFF {
        if let Some(c) = char::from_u32(u) {
            assert_eq!(is_whitespace(c), c.is_whitespace(), "char {u:#x}");
        }
    }
}

#[test]
fn blank_text_is_what_trims_to_empty() {
    for s in ["", " ", "\t\n", "\u{3000}", " a ", "x", "\u{a0}b"] {
        assert_eq!(is_blank(s), s.trim().is_empty(), "{s:?}");
        assert_eq!(trim_text(s), s.trim());
    }
}

#[test]
fn decimal_formatting() {
    for n in [0u32, 7, 10, 99, 1234, u32::MAX] {
        assert_eq!(u32_to_decimal(n), n.to_string());
    }
}

#[test]
fn text_equality() {
    assert!(str_equal("abc", "abc"));
    assert!(!str_equal("abc", "abd"));
    assert!(!str_equal("ab", "abc"));
}

#[test]
fn error_texts() {
    assert_eq!(AppError::config("bad".to_string()).to_string(), "config error: bad");
    assert_eq!(AppError::Io("disk".to_string()).to_string(), "io error: disk");
    assert_eq!(AppError::validation("v".to_string()).to_string(), "validation error: v");
    assert_eq!(AppError::runtime("r".to_string()).to_string(), "runtime error: r");
    assert_eq!(AppError::project_store("p".to_string()).to_string(), "project store error: p");
    assert_eq!(AppError::terminal("t".to_string()).to_string(), "terminal error: t");
    assert_eq!(
        AppError::LaunchLocked.to_string(),
        "project is launch-locked and cannot be modified"
    );
}

#[test]
fn worktree_name_from_dot_git_file() {
    assert_eq!(
        linked_worktree_name("gitdir: /home/me/repo/.git/worktrees/feature-x\n"),
        Some("feature-x".to_string())
    );
    assert_eq!(linked_worktree_name("gitdir: /home/me/repo/.git"), None);
    assert_eq!(linked_worktree_name("gitdir: /r/.git/worktrees"), None);
    assert_eq!(linked_worktree_name("not a gitdir line"), None);
    assert_eq!(
        linked_worktree_name("gitdir:  ./a//./worktrees/./wt/x  "),
        Some("wt".to_string())
    );
}

#[test]
fn path_segments_match_std_components() {
    for p in ["/a/b/c", "a//b/./c/", "./x/../y", "/", "", "worktrees/n"] {
        let ours = split_path_segments(p);
        let theirs: Vec<String> = std::path::Path::new(p)
            .components()
            .filter_map(|c| match c {
                std::path::Component::Normal(s) => Some(s.to_string_lossy().into_owned()),
                std::path::Component::ParentDir => Some("..".to_string()),
                _ => None,
            })
            .collect();
        assert_eq!(ours, theirs, "{p:?}");
    }
}

#[test]
fn git_info_default_is_empty() {
    let info = GitInfo::default();
    assert!(info.repo_name.is_none() && info.branch.is_none() && info.worktree.is_none());
    assert!(!info.is_worktree);
    assert!(info.display_path.is_none());
}

#[test]
fn launch_lock_decisions() {
    assert!(check_launch_locked(&None).is_ok());
    assert!(matches!(check_launch_locked(&Some("p".to_string())), Err(AppError::LaunchLocked)));
    assert!(check_launch_allows(&None, "a").is_ok());
    assert!(check_launch_allows(&Some("a".to_string()), "a").is_ok());
    assert!(matches!(check_launch_allows(&Some("a".to_string()), "b"), Err(AppError::LaunchLocked)));
    let info = LaunchProjectInfo::from_launch(&Some("a".to_string()));
    assert!(info.locked);
    assert_eq!(info.project_id, Some("a".to_string()));
    assert!(!LaunchProjectInfo::from_launch(&None).locked);
}

#[test]
fn terminal_defaults() {
    let request = OpenTerminalRequest {
        project_id: "p".to_string(),
        title: None,
        cols: None,
        rows: Some(40),
    };
    assert_eq!(request.settings("demo"), ("demo shell".to_string(), 100, 40));
    let request = OpenTerminalRequest {
        project_id: "p".to_string(),
        title: Some("mine".to_string()),
        cols: Some(80),
        rows: None,
    };
    assert_eq!(request.settings("demo"), ("mine".to_string(), 80, 28));
}

#[test]
fn project_window_texts() {
    assert_eq!(project_window_label("42"), "project-42");
    assert_eq!(project_window_url("42"), "?projectId=42&autorun=1");
    assert_eq!(project_window_title("demo"), "demo — devapp");
}

#[test]
fn launch_argument_is_first_non_option() {
    let args: Vec<String> = ["devapp", "--verbose", "examples/x.yml", "y"].iter().map(|s| s.to_string()).collect();
    assert_eq!(first_positional_argument(&args), Some(2));
    let args: Vec<String> = ["devapp", "--a"].iter().map(|s| s.to_string()).collect();
    assert_eq!(first_positional_argument(&args), None);
    assert_eq!(first_positional_argument(&vec![]), None);
    let args: Vec<String> = ["devapp", "-x"].iter().map(|s| s.to_string()).collect();
    assert_eq!(first_positional_argument(&args), Some(1));
}
