//! Where timestamped records go: the console, a log file, both, or nowhere.

use vstd::prelude::*;

use crate::args::Args;

verus! {

/// The destinations of the output sink.
#[derive(Debug, Clone, Copy, PartialEq, Eq, Structural)]
pub enum Output {
    /// The console only.
    Std,
    /// The log file only, created or truncated.
    Fs,
    /// The log file and the console, with the same bytes.
    Both,
    /// Nothing: writes succeed and go nowhere.
    Discard,
}

/// The sink chosen by whether a log file is named and whether the console is
/// silenced.
pub open spec fn output_for(has_log_file: bool, silent: bool) -> Output {
    if has_log_file {
        if silent {
            Output::Fs
        } else {
            Output::Both
        }
    } else if silent {
        Output::Discard
    } else {
        Output::Std
    }
}

impl Output {
    /// Chooses the sink from the arguments.
    pub fn from_args(args: &Args) -> (r: Output)
        ensures
            r == output_for(args.log_file is Some, args.silent),
    {
        match (args.log_file.is_some(), args.silent) {
            (false, true) => Output::Discard,
            (false, false) => Output::Std,
            (true, true) => Output::Fs,
            (true, false) => Output::Both,
        }
    }

    /// Whether records are written to the console.
    pub fn writes_console(&self) -> (r: bool)
        ensures
            r == (*self == Output::Std || *self == Output::Both),
    {
        matches!(self, Output::Std | Output::Both)
    }

    /// Whether records are written to the log file.
    pub fn writes_file(&self) -> (r: bool)
        ensures
            r == (*self == Output::Fs || *self == Output::Both),
    {
        matches!(self, Output::Fs | Output::Both)
    }
}

} // verus!
