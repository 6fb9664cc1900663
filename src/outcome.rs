//! The failures of a read, and what the operation answers after each of its
//! two steps: opening the file, then reading its text.
use crate::lines::{lines_of, split_lines, views};
use vstd::prelude::*;

verus! {

/// The step of the operation that failed.
#[derive(Clone, Copy, Debug, PartialEq, Eq)]
pub enum Phase {
    Open,
    Read,
}

/// How the operating system classified a failure.
#[derive(Clone, Debug, PartialEq, Eq)]
pub enum FailureKind {
    NotFound,
    PermissionDenied,
    InvalidData,
    /// Any other classification, under the name the platform gives it.
    Other(String),
}

/// A failure as the operating system reported it: its classification and
/// its message.
#[derive(Clone, Debug, PartialEq, Eq)]
pub struct IoFailure {
    pub kind: FailureKind,
    pub detail: String,
}

/// The error of the operation: the step that failed, with the failure
/// that the operating system reported there.
#[derive(Clone, Debug, PartialEq, Eq)]
pub struct OperationError {
    pub phase: Phase,
    pub kind: FailureKind,
    pub detail: String,
}

/// The name of a classification, as it appears in a message.
pub open spec fn kind_name_of(kind: FailureKind) -> Seq<char> {
    match kind {
        FailureKind::NotFound => "NotFound"@,
        FailureKind::PermissionDenied => "PermissionDenied"@,
        FailureKind::InvalidData => "InvalidData"@,
        FailureKind::Other(name) => name@,
    }
}

/// The words that open a message for a failure at `phase`.
pub open spec fn phase_text(phase: Phase) -> Seq<char> {
    match phase {
        Phase::Open => "failed to open file: "@,
        Phase::Read => "failed to read file: "@,
    }
}

/// The message of an error: the failed step, the classification in
/// brackets, then the operating system's message.
pub open spec fn message_of(e: OperationError) -> Seq<char> {
    phase_text(e.phase) + "["@ + kind_name_of(e.kind) + "] "@ + e.detail@
}

/// The error for `failure` at step `phase`.
pub open spec fn error_at(phase: Phase, failure: IoFailure) -> OperationError {
    OperationError { phase, kind: failure.kind, detail: failure.detail }
}

impl FailureKind {
    /// The name of this classification.
    pub fn name(&self) -> (r: String)
        ensures
            r@ == kind_name_of(*self),
    {
        match self {
            FailureKind::NotFound => String::from_str("NotFound"),
            FailureKind::PermissionDenied => String::from_str("PermissionDenied"),
            FailureKind::InvalidData => String::from_str("InvalidData"),
            FailureKind::Other(name) => name.clone(),
        }
    }
}

impl OperationError {
    /// The message that reports this error to the caller.
    pub fn message(&self) -> (r: String)
        ensures
            r@ == message_of(*self),
    {
        let mut r = match self.phase {
            Phase::Open => String::from_str("failed to open file: "),
            Phase::Read => String::from_str("failed to read file: "),
        };
        r.append("[");
        let name = self.kind.name();
        r.append(name.as_str());
        r.append("] ");
        r.append(self.detail.as_str());
        r
    }
}

/// What follows the open step: the operation goes on when the file opened,
/// and ends with an open failure otherwise.
pub fn after_open(opened: Result<(), IoFailure>) -> (r: Result<(), OperationError>)
    ensures
        match opened {
            Ok(()) => r is Ok,
            Err(f) => r == Err::<(), OperationError>(error_at(Phase::Open, f)),
        },
{
    match opened {
        Ok(()) => Ok(()),
        Err(f) => Err(OperationError { phase: Phase::Open, kind: f.kind, detail: f.detail }),
    }
}

/// What follows the read step: the lines of the text that was read, or a
/// read failure.
pub fn after_read(read: Result<String, IoFailure>) -> (r: Result<Vec<String>, OperationError>)
    ensures
        match read {
            Ok(text) => r is Ok && views(r->Ok_0@) == lines_of(text@),
            Err(f) => r == Err::<Vec<String>, OperationError>(error_at(Phase::Read, f)),
        },
{
    match read {
        Ok(text) => Ok(split_lines(text.as_str())),
        Err(f) => Err(OperationError { phase: Phase::Read, kind: f.kind, detail: f.detail }),
    }
}

/// The answer handed across the command boundary: the lines, or the
/// error's message.
pub fn reply(outcome: Result<Vec<String>, OperationError>) -> (r: Result<Vec<String>, String>)
    ensures
        match outcome {
            Ok(lines) => r == Ok::<Vec<String>, String>(lines),
            Err(e) => r is Err && r->Err_0@ == message_of(e),
        },
{
    match outcome {
        Ok(lines) => Ok(lines),
        Err(e) => Err(e.message()),
    }
}

} // verus!
