use vstd::prelude::*;
use vstd::string::StringExecFns;

verus! {

/// The error type shared by every operation of the application.
#[derive(Debug)]
pub enum AppError {
    Config(String),
    Io(String),
    Validation(String),
    Runtime(String),
    ProjectStore(String),
    Terminal(String),
    LaunchLocked,
}

/// Mathematical model of an [`AppError`]: the variant and its message.
pub enum AppErrorView {
    Config(Seq<char>),
    Io(Seq<char>),
    Validation(Seq<char>),
    Runtime(Seq<char>),
    ProjectStore(Seq<char>),
    Terminal(Seq<char>),
    LaunchLocked,
}

impl View for AppError {
    type V = AppErrorView;

    open spec fn view(&self) -> AppErrorView {
        match self {
            AppError::Config(m) => AppErrorView::Config(m@),
            AppError::Io(m) => AppErrorView::Io(m@),
            AppError::Validation(m) => AppErrorView::Validation(m@),
            AppError::Runtime(m) => AppErrorView::Runtime(m@),
            AppError::ProjectStore(m) => AppErrorView::ProjectStore(m@),
            AppError::Terminal(m) => AppErrorView::Terminal(m@),
            AppError::LaunchLocked => AppErrorView::LaunchLocked,
        }
    }
}

impl AppErrorView {
    /// The human readable text of an error: a prefix naming its kind, then its message.
    pub open spec fn text(self) -> Seq<char> {
        match self {
            AppErrorView::Config(m) => "config error: "@ + m,
            AppErrorView::Io(m) => "io error: "@ + m,
            AppErrorView::Validation(m) => "validation error: "@ + m,
            AppErrorView::Runtime(m) => "runtime error: "@ + m,
            AppErrorView::ProjectStore(m) => "project store error: "@ + m,
            AppErrorView::Terminal(m) => "terminal error: "@ + m,
            AppErrorView::LaunchLocked => "project is launch-locked and cannot be modified"@,
        }
    }
}

/// Views a `Result` whose error is an [`AppError`] by the error's model.
pub open spec fn result_view<T>(r: Result<T, AppError>) -> Result<T, AppErrorView> {
    match r {
        Ok(v) => Ok(v),
        Err(e) => Err(e@),
    }
}

fn prefixed(prefix: &str, message: &String) -> (r: String)
    ensures
        r@ == prefix@ + message@,
{
    let s = String::from_str(prefix);
    s.concat(message.as_str())
}

impl AppError {
    pub fn config(message: String) -> (r: Self)
        ensures
            r@ == AppErrorView::Config(message@),
    {
        AppError::Config(message)
    }

    pub fn validation(message: String) -> (r: Self)
        ensures
            r@ == AppErrorView::Validation(message@),
    {
        AppError::Validation(message)
    }

    pub fn runtime(message: String) -> (r: Self)
        ensures
            r@ == AppErrorView::Runtime(message@),
    {
        AppError::Runtime(message)
    }

    pub fn project_store(message: String) -> (r: Self)
        ensures
            r@ == AppErrorView::ProjectStore(message@),
    {
        AppError::ProjectStore(message)
    }

    pub fn terminal(message: String) -> (r: Self)
        ensures
            r@ == AppErrorView::Terminal(message@),
    {
        AppError::Terminal(message)
    }

    /// The human readable text of the error.
    pub fn to_string(&self) -> (r: String)
        ensures
            r@ == self@.text(),
    {
        proof {
            reveal_strlit("project is launch-locked and cannot be modified");
        }
        match self {
            AppError::Config(m) => prefixed("config error: ", m),
            AppError::Io(m) => prefixed("io error: ", m),
            AppError::Validation(m) => prefixed("validation error: ", m),
            AppError::Runtime(m) => prefixed("runtime error: ", m),
            AppError::ProjectStore(m) => prefixed("project store error: ", m),
            AppError::Terminal(m) => prefixed("terminal error: ", m),
            AppError::LaunchLocked => String::from_str("project is launch-locked and cannot be modified"),
        }
    }
}

} // verus!
