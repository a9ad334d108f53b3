//! What the pack manager says and asks, as far as it is decided here: which
//! messages are shown, and what a question comes to when nobody answers.

use vstd::prelude::*;

verus! {

/// Whom the program talks to.
#[derive(Clone, Copy, Debug, PartialEq, Eq, Structural)]
pub enum IOMode {
    Cli,
    Gui,
}

/// How much the program says.
#[derive(Clone, Copy, Debug)]
pub struct IOConfig {
    pub verbose: bool,
    pub quiet: bool,
    pub mode: IOMode,
}

/// The weight of a message.
#[derive(Clone, Copy, Debug, PartialEq, Eq, Structural)]
pub enum Severity {
    Debug,
    Info,
    Success,
    Warn,
    Error,
}

/// The answer to a question.
#[derive(Debug)]
pub enum PromptResult<T> {
    /// An explicit answer.
    Response(T),
    /// The question was called off.
    Cancel,
}

impl<T> PromptResult<T> {
    /// The answer. There must be one.
    pub fn unwrap(self) -> (r: T)
        requires
            self is Response,
        ensures
            self == PromptResult::Response(r),
    {
        match self {
            PromptResult::Response(v) => v,
            PromptResult::Cancel => unreached(),
        }
    }

    /// Whether the question was called off.
    pub fn is_cancel(&self) -> (r: bool)
        ensures
            r == (self is Cancel),
    {
        match self {
            PromptResult::Response(_) => false,
            PromptResult::Cancel => true,
        }
    }

    /// What a question comes to when nobody can be asked: the default where
    /// one was supplied, and else it counts as called off.
    pub fn unanswered(default: Option<T>) -> (r: PromptResult<T>)
        ensures
            r == match default {
                Some(v) => PromptResult::Response(v),
                None => PromptResult::Cancel,
            },
    {
        match default {
            Some(v) => PromptResult::Response(v),
            None => PromptResult::Cancel,
        }
    }
}

impl IOConfig {
    /// Whether a message of the given weight is shown. Debug messages are
    /// shown only to the verbose. On the command line, `quiet` silences
    /// information and success; warnings and errors are always shown.
    pub open spec fn shown(self, severity: Severity) -> bool {
        match severity {
            Severity::Debug => self.verbose,
            Severity::Info | Severity::Success => !(self.mode == IOMode::Cli && self.quiet),
            Severity::Warn | Severity::Error => true,
        }
    }

    /// Whether a message of the given weight is shown.
    pub fn shows(&self, severity: Severity) -> (r: bool)
        ensures
            r == self.shown(severity),
    {
        match severity {
            Severity::Debug => self.verbose,
            Severity::Info | Severity::Success => match self.mode {
                IOMode::Cli => !self.quiet,
                IOMode::Gui => true,
            },
            Severity::Warn | Severity::Error => true,
        }
    }
}

/// The channel to a graphical shell.
#[derive(Clone, Copy, Debug)]
pub struct GuiIO {
    pub cfg: IOConfig,
}

impl GuiIO {
    /// The channel that says as much as `cfg` asks.
    pub fn new(cfg: IOConfig) -> (r: Self)
        ensures
            r.cfg == cfg,
    {
        GuiIO { cfg }
    }
}

} // verus!
