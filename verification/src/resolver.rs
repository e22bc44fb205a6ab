//! Resolving which executable to invoke, and validating a caller-supplied
//! path to the tool.

use vstd::prelude::*;
use vstd::string::StringExecFns;
use crate::types::{CmError, ExecutableHandle, InvokeOutcome};

verus! {

/// Chooses the executable: a present, non-empty caller-supplied path is
/// used verbatim; otherwise the fixed default name is used.
pub fn resolve_command(cm_path: Option<String>) -> (h: ExecutableHandle)
    ensures
        cm_path is Some && cm_path->0@.len() > 0 ==> (h matches ExecutableHandle::Explicit { path }
            && path@ == cm_path->0@),
        (cm_path is Some ==> cm_path->0@.len() == 0) ==> h is DefaultName,
{
    match cm_path {
        Some(p) => {
            if p.as_str().is_empty() {
                ExecutableHandle::DefaultName
            } else {
                ExecutableHandle::Explicit { path: p }
            }
        },
        None => ExecutableHandle::DefaultName,
    }
}

/// The argument list of the version-query subcommand.
pub fn version_args() -> (a: Vec<String>)
    ensures
        crate::text::string_views(a@) =~= seq!["version"@],
{
    let mut a: Vec<String> = Vec::new();
    a.push(String::from_str("version"));
    a
}

/// The expected executable filename when a directory is supplied.
pub open spec fn joined_cm_path(p: Seq<char>, is_dir: bool) -> Seq<char> {
    if !is_dir {
        p
    } else if p.len() > 0 && p[p.len() - 1] == '/' {
        p + "cm.exe"@
    } else {
        p + "/"@ + "cm.exe"@
    }
}

/// Resolves the path to validate: a directory is joined with the expected
/// executable filename; any other path is used as given. The application
/// shell reports whether the path denotes a directory.
pub fn resolve_validation_path(path: &str, is_dir: bool) -> (r: String)
    ensures
        r@ == joined_cm_path(path@, is_dir),
{
    if !is_dir {
        return path.to_owned();
    }
    let n = path.unicode_len();
    let mut r = path.to_owned();
    if n > 0 && path.get_char(n - 1) == '/' {
        r.append("cm.exe");
    } else {
        r.append("/");
        r.append("cm.exe");
    }
    r
}

/// The validation decision: a missing file is `NotFound` (naming the
/// resolved path); a tool that runs and exits zero yields the resolved
/// path; a non-zero exit is `ExecutionFailed`; a tool that could not be
/// launched is `LaunchFailed`, wrapping the underlying error text.
///
/// When the file exists, the application shell must have attempted the
/// version query and pass its outcome.
pub fn validate_decision(resolved: String, file_exists: bool, outcome: Option<InvokeOutcome>) -> (r:
    Result<String, CmError>)
    requires
        file_exists ==> outcome is Some,
    ensures
        !file_exists ==> (r matches Err(e) && e matches CmError::NotFound { path } && path@
            == resolved@),
        file_exists ==> (outcome matches Some(InvokeOutcome::Ran { exit_success: true, .. }) ==> (
        r matches Ok(p) && p@ == resolved@)),
        file_exists ==> (outcome matches Some(InvokeOutcome::Ran { exit_success: false, .. }) ==> r
            matches Err(CmError::ExecutionFailed)),
        file_exists ==> (outcome matches Some(InvokeOutcome::NotLaunched { error }) ==> (r matches Err(
            e,
        ) && e matches CmError::LaunchFailed { message } && message@
            == "Failed to execute cm.exe: "@ + error@)),
{
    if !file_exists {
        return Err(CmError::NotFound { path: resolved });
    }
    match outcome {
        Some(InvokeOutcome::Ran { exit_success, .. }) => {
            if exit_success {
                Ok(resolved)
            } else {
                Err(CmError::ExecutionFailed)
            }
        },
        Some(InvokeOutcome::NotLaunched { error }) => {
            let mut m = String::from_str("Failed to execute cm.exe: ");
            m.append(error.as_str());
            Err(CmError::LaunchFailed { message: m })
        },
        None => Err(CmError::NotFound { path: resolved }),
    }
}

/// Whether the tool is installed: the version query launched and exited
/// zero. A launch failure is "not installed", not an error.
pub fn installed_decision(outcome: InvokeOutcome) -> (r: bool)
    ensures
        r == (outcome matches InvokeOutcome::Ran { exit_success: true, .. }),
{
    match outcome {
        InvokeOutcome::Ran { exit_success, .. } => exit_success,
        InvokeOutcome::NotLaunched { .. } => false,
    }
}

} // verus!
