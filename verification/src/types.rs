//! The data model: repository and changeset records, the resolved
//! executable, the captured outcome of one external invocation, and the
//! error kinds of the orchestration layer.

use vstd::prelude::*;
use vstd::string::StringExecFns;
use crate::text::trim_spec;

verus! {

/// A version-control repository hosted on a given server.
#[derive(Debug, Clone)]
pub struct PlasticRepo {
    pub name: String,
    pub server: String,
}

/// One committed revision, as parsed from the pipe-delimited history format.
#[derive(Debug, Clone)]
pub struct Changeset {
    pub id: i32,
    pub author: String,
    pub date: String,
    pub comment: String,
    pub branch: String,
    pub repository: String,
}

/// The spec-level value of a `Changeset`.
pub struct ChangesetView {
    pub id: int,
    pub author: Seq<char>,
    pub date: Seq<char>,
    pub comment: Seq<char>,
    pub branch: Seq<char>,
    pub repository: Seq<char>,
}

impl View for Changeset {
    type V = ChangesetView;

    open spec fn view(&self) -> ChangesetView {
        ChangesetView {
            id: self.id as int,
            author: self.author@,
            date: self.date@,
            comment: self.comment@,
            branch: self.branch@,
            repository: self.repository@,
        }
    }
}

/// The spec-level values of a sequence of changesets.
pub open spec fn changeset_views(s: Seq<Changeset>) -> Seq<ChangesetView> {
    s.map_values(|c: Changeset| c@)
}

/// The resolved command to invoke: either the fixed default executable
/// name, looked up through the environment's search path, or a path the
/// caller supplied explicitly.
#[derive(Debug, Clone)]
pub enum ExecutableHandle {
    DefaultName,
    Explicit { path: String },
}

impl ExecutableHandle {
    /// The program string to hand to the operating system.
    pub fn program(&self) -> (p: String)
        ensures
            self is DefaultName ==> p@ == "cm"@,
            self matches ExecutableHandle::Explicit { path } ==> p@ == path@,
    {
        match self {
            ExecutableHandle::DefaultName => String::from_str("cm"),
            ExecutableHandle::Explicit { path } => path.clone(),
        }
    }
}

/// What happened when the application shell tried to run the external
/// tool once: either the process ran to completion (with its exit status
/// and leniently decoded output), or it could not be launched at all.
#[derive(Debug, Clone)]
pub enum InvokeOutcome {
    Ran { exit_success: bool, stdout: String, stderr: String },
    NotLaunched { error: String },
}

/// An error of the orchestration layer. Variants that embed text captured
/// from the external tool carry the already-composed message.
#[derive(Debug, Clone)]
pub enum CmError {
    /// The process could not be started at all.
    LaunchFailed { message: String },
    /// Path validation: the resolved path does not exist.
    NotFound { path: String },
    /// The tool ran but signalled failure on the version query.
    ExecutionFailed,
    /// A required subcommand exited non-zero.
    SubcommandFailed { message: String },
    /// No cloud server could be detected from any listing.
    ServerNotDetected,
    /// The repository listing contained no usable repository names.
    NoRepositoriesFound { server: String, raw_output: String },
}

/// The human-readable message of an error, as handed to the frontend.
pub open spec fn error_message_spec(e: &CmError) -> Seq<char> {
    match e {
        CmError::LaunchFailed { message } => message@,
        CmError::NotFound { path } => "File not found: "@ + path@,
        CmError::ExecutionFailed => "cm.exe found but failed to execute 'cm version'"@,
        CmError::SubcommandFailed { message } => message@,
        CmError::ServerNotDetected => "Could not detect Plastic Cloud server. Please ensure you're logged in."@,
        CmError::NoRepositoriesFound { server, raw_output } => "No repositories found on server '"@
            + server@ + "'. Raw output: "@ + raw_output@,
    }
}

impl CmError {
    /// Renders the error as the single descriptive string that crosses
    /// the boundary to the caller.
    pub fn message(&self) -> (m: String)
        ensures
            m@ == error_message_spec(self),
    {
        match self {
            CmError::LaunchFailed { message } => message.clone(),
            CmError::NotFound { path } => {
                let mut m = String::from_str("File not found: ");
                m.append(path.as_str());
                m
            },
            CmError::ExecutionFailed => String::from_str(
                "cm.exe found but failed to execute 'cm version'",
            ),
            CmError::SubcommandFailed { message } => message.clone(),
            CmError::ServerNotDetected => String::from_str(
                "Could not detect Plastic Cloud server. Please ensure you're logged in.",
            ),
            CmError::NoRepositoriesFound { server, raw_output } => {
                let mut m = String::from_str("No repositories found on server '");
                m.append(server.as_str());
                m.append("'. Raw output: ");
                m.append(raw_output.as_str());
                m
            },
        }
    }
}

/// Composes the message of a launch failure: what was being run, and the
/// operating-system error text.
pub fn launch_failed_message(what: &str, os_error: &str) -> (m: String)
    ensures
        m@ == "Failed to run "@ + what@ + ": "@ + os_error@,
{
    let mut m = String::from_str("Failed to run ");
    m.append(what);
    m.append(": ");
    m.append(os_error);
    m
}

/// Trims captured output, as the diagnostics embedded in error messages are.
pub fn trimmed_owned(s: &str) -> (r: String)
    ensures
        r@ == trim_spec(s@),
{
    let t = crate::text::trim_str(s);
    t.to_owned()
}

} // verus!
