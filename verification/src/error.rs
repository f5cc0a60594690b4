//! What can go wrong while a request is served.

use vstd::prelude::*;
use vstd::string::*;

verus! {

/// The ways in which serving one request can fail. Each failure ends the
/// request it belongs to and nothing else.
#[derive(Debug, Clone, Copy, PartialEq, Eq, Structural)]
pub enum Failure {
    /// The task identifier names no task.
    UnknownTask,
    /// The resource carries no compose file label, or an empty one.
    NoComposeFile,
    /// The resource could not be inspected.
    InspectFailed,
    /// A command could not be started.
    SpawnFailed,
    /// The output of a command could not be read, or was not text.
    ReadFailed,
    /// A command ended with a status other than zero.
    CommandFailed,
    /// The compose file could not be read, or was not text.
    FileFailed,
    /// The caller could not publish an event. The bus of this library never
    /// fails a publisher; the failure is for a caller that publishes by
    /// other means.
    PublishFailed,
    /// The caller gave the task up.
    Cancelled,
    /// The caller reported something that does not answer the last request.
    Unexpected,
}

impl Failure {
    /// The words that describe a failure.
    pub open spec fn text(self) -> Seq<char> {
        match self {
            Failure::UnknownTask => "invalid task"@,
            Failure::NoComposeFile => "no compose file found"@,
            Failure::InspectFailed => "could not inspect the container"@,
            Failure::SpawnFailed => "could not start the command"@,
            Failure::ReadFailed => "could not read the output of the command"@,
            Failure::CommandFailed => "the command failed"@,
            Failure::FileFailed => "could not read the compose file"@,
            Failure::PublishFailed => "could not publish an event"@,
            Failure::Cancelled => "cancelled"@,
            Failure::Unexpected => "unexpected report"@,
        }
    }

    /// Describes the failure in words.
    pub fn describe(&self) -> (s: &'static str)
        ensures
            s@ == self.text(),
    {
        match self {
            Failure::UnknownTask => "invalid task",
            Failure::NoComposeFile => "no compose file found",
            Failure::InspectFailed => "could not inspect the container",
            Failure::SpawnFailed => "could not start the command",
            Failure::ReadFailed => "could not read the output of the command",
            Failure::CommandFailed => "the command failed",
            Failure::FileFailed => "could not read the compose file",
            Failure::PublishFailed => "could not publish an event",
            Failure::Cancelled => "cancelled",
            Failure::Unexpected => "unexpected report",
        }
    }
}

/// A failure on its way to the client.
#[derive(Debug, Clone, Copy, PartialEq, Eq, Structural)]
pub struct AppError(pub Failure);

impl AppError {
    /// The error that reports `failure`.
    pub fn from(failure: Failure) -> (err: AppError)
        ensures
            err.0 == failure,
    {
        AppError(failure)
    }

    /// The text that the client is shown.
    pub fn message(&self) -> (s: String)
        ensures
            s@ == "Something went wrong: "@ + self.0.text(),
    {
        "Something went wrong: ".to_owned().concat(self.0.describe())
    }
}

} // verus!
