use vstd::prelude::*;
use vstd::string::*;

verus! {

/// The kinds of failure of setting up and running formulae and plots.
///
/// A cause is kept as its rendered text.
#[derive(Debug, Clone)]
pub enum RunError {
    InvalidArguments { msg: String },
    BizarreEnvironment { msg: String },
    SystemSetupError { msg: String, cause: String },
    SystemSetupCauseless { msg: String },
    SystemRuntimeError { msg: String, cause: String },
    Catchall { msg: String, cause: String },
    Unimplemented { msg: String },
}

/// The mathematical value of an [`RunError`].
pub enum RunErrorView {
    InvalidArguments { msg: Seq<char> },
    BizarreEnvironment { msg: Seq<char> },
    SystemSetupError { msg: Seq<char>, cause: Seq<char> },
    SystemSetupCauseless { msg: Seq<char> },
    SystemRuntimeError { msg: Seq<char>, cause: Seq<char> },
    Catchall { msg: Seq<char>, cause: Seq<char> },
    Unimplemented { msg: Seq<char> },
}

impl View for RunError {
    type V = RunErrorView;

    open spec fn view(&self) -> RunErrorView {
        match self {
            RunError::InvalidArguments { msg } => RunErrorView::InvalidArguments { msg: msg@ },
            RunError::BizarreEnvironment { msg } => RunErrorView::BizarreEnvironment { msg: msg@ },
            RunError::SystemSetupError { msg, cause } => RunErrorView::SystemSetupError {
                msg: msg@,
                cause: cause@,
            },
            RunError::SystemSetupCauseless { msg } => RunErrorView::SystemSetupCauseless { msg: msg@ },
            RunError::SystemRuntimeError { msg, cause } => RunErrorView::SystemRuntimeError {
                msg: msg@,
                cause: cause@,
            },
            RunError::Catchall { msg, cause } => RunErrorView::Catchall { msg: msg@, cause: cause@ },
            RunError::Unimplemented { msg } => RunErrorView::Unimplemented { msg: msg@ },
        }
    }
}

impl RunErrorView {
    pub open spec fn msg(self) -> Seq<char> {
        match self {
            RunErrorView::InvalidArguments { msg } => msg,
            RunErrorView::BizarreEnvironment { msg } => msg,
            RunErrorView::SystemSetupError { msg, .. } => msg,
            RunErrorView::SystemSetupCauseless { msg } => msg,
            RunErrorView::SystemRuntimeError { msg, .. } => msg,
            RunErrorView::Catchall { msg, .. } => msg,
            RunErrorView::Unimplemented { msg } => msg,
        }
    }

    /// The error as text: its message, then `: ` and its cause if it has one.
    pub open spec fn text(self) -> Seq<char> {
        match self.cause() {
            Some(c) => self.msg() + ": "@ + c,
            None => self.msg(),
        }
    }

    pub open spec fn cause(self) -> Option<Seq<char>> {
        match self {
            RunErrorView::SystemSetupError { cause, .. } => Some(cause),
            RunErrorView::SystemRuntimeError { cause, .. } => Some(cause),
            RunErrorView::Catchall { cause, .. } => Some(cause),
            _ => None,
        }
    }
}

impl RunError {
    /// The message of the error.
    pub fn message(&self) -> (r: &String)
        ensures
            r@ == self@.msg(),
    {
        match self {
            RunError::InvalidArguments { msg } => msg,
            RunError::BizarreEnvironment { msg } => msg,
            RunError::SystemSetupError { msg, .. } => msg,
            RunError::SystemSetupCauseless { msg } => msg,
            RunError::SystemRuntimeError { msg, .. } => msg,
            RunError::Catchall { msg, .. } => msg,
            RunError::Unimplemented { msg } => msg,
        }
    }

    /// The error as text: its message, then `: ` and its cause if it has one.
    pub fn render(&self) -> (r: String)
        ensures
            r@ == self@.text(),
    {
        match self.cause() {
            Some(c) => self.message().clone().concat(": ").concat(c.as_str()),
            None => self.message().clone(),
        }
    }

    /// The rendered cause of the error, for the kinds that carry one.
    pub fn cause(&self) -> (r: Option<&String>)
        ensures
            r matches Some(c) ==> self@.cause() == Some(c@),
            r is None ==> self@.cause() is None,
    {
        match self {
            RunError::SystemSetupError { cause, .. } => Some(cause),
            RunError::SystemRuntimeError { cause, .. } => Some(cause),
            RunError::Catchall { cause, .. } => Some(cause),
            _ => None,
        }
    }
}

} // verus!
