//! Detecting the cloud server from the tool's repository and server
//! listings.

use vstd::prelude::*;
use vstd::string::StringExecFns;
use crate::text::{
    contains_seq, contains_substr, split_char, split_str, string_views, trim_spec, trim_str,
};
use crate::types::{CmError, InvokeOutcome};

verus! {

/// The argument list of the "list repositories" subcommand.
pub fn lrep_args() -> (a: Vec<String>)
    ensures
        string_views(a@) =~= seq!["lrep"@],
{
    let mut a: Vec<String> = Vec::new();
    a.push(String::from_str("lrep"));
    a
}

/// The argument list of the "list servers" subcommand.
pub fn listservers_args() -> (a: Vec<String>)
    ensures
        string_views(a@) =~= seq!["listservers"@],
{
    let mut a: Vec<String> = Vec::new();
    a.push(String::from_str("listservers"));
    a
}

/// The server identifier a single repository-listing line yields, if any:
/// the trimmed line must contain an `@` and the word "cloud"; it is split
/// on `@`, and the identifier is the last two segments rejoined (or the
/// last segment alone when only two exist), provided that is non-empty.
pub open spec fn extract_server_spec(line: Seq<char>) -> Option<Seq<char>> {
    let t = trim_spec(line);
    if contains_seq(t, "@"@) && contains_seq(t, "cloud"@) {
        let parts = split_char(t, '@');
        if parts.len() >= 2 {
            let server = if parts.len() >= 3 {
                parts[parts.len() - 2] + "@"@ + parts[parts.len() - 1]
            } else {
                parts[parts.len() - 1]
            };
            if server.len() > 0 {
                Some(server)
            } else {
                None
            }
        } else {
            None
        }
    } else {
        None
    }
}

/// Extracts a server identifier from one line of repository-listing
/// output, as `extract_server_spec` describes.
pub fn extract_server_from_line(line: &str) -> (r: Option<String>)
    ensures
        match extract_server_spec(line@) {
            Some(s) => r matches Some(v) && v@ == s,
            None => r is None,
        },
{
    let t = trim_str(line);
    if contains_substr(t, "@") && contains_substr(t, "cloud") {
        let parts = split_str(t, '@');
        if parts.len() >= 2 {
            let server: String = if parts.len() >= 3 {
                let mut s = parts[parts.len() - 2].clone();
                s.append("@");
                s.append(parts[parts.len() - 1].as_str());
                s
            } else {
                parts[parts.len() - 1].clone()
            };
            if server.as_str().is_empty() {
                None
            } else {
                Some(server)
            }
        } else {
            None
        }
    } else {
        None
    }
}

/// The first server identifier any of the lines yields, scanning top to
/// bottom.
pub open spec fn first_server_in(lines: Seq<Seq<char>>) -> Option<Seq<char>>
    decreases lines.len(),
{
    if lines.len() == 0 {
        None
    } else {
        match extract_server_spec(lines[0]) {
            Some(s) => Some(s),
            None => first_server_in(lines.drop_first()),
        }
    }
}

/// The first trimmed line containing "cloud", scanning top to bottom.
pub open spec fn first_cloud_line_in(lines: Seq<Seq<char>>) -> Option<Seq<char>>
    decreases lines.len(),
{
    if lines.len() == 0 {
        None
    } else {
        let t = trim_spec(lines[0]);
        if contains_seq(t, "cloud"@) {
            Some(t)
        } else {
            first_cloud_line_in(lines.drop_first())
        }
    }
}

/// What the first, repository-listing probe decided: a server was found;
/// nothing matched, so the server-listing fallback should be tried; or
/// the probe could not run at all.
#[derive(Debug)]
pub enum ServerProbe {
    Found { server: String },
    TryFallback,
    Failed { error: CmError },
}

fn scan_for_server(lines: &Vec<String>) -> (r: Option<String>)
    ensures
        match first_server_in(string_views(lines@)) {
            Some(s) => r matches Some(v) && v@ == s,
            None => r is None,
        },
{
    let ghost all = string_views(lines@);
    let mut i: usize = 0;
    proof {
        assert(all.skip(0) =~= all);
    }
    while i < lines.len()
        invariant
            all == string_views(lines@),
            i <= lines.len(),
            all.len() == lines@.len(),
            first_server_in(all.skip(i as int)) == first_server_in(all),
        decreases lines@.len() - i,
    {
        let line = &lines[i];
        let found = extract_server_from_line(line.as_str());
        proof {
            assert(all.skip(i as int)[0] == all[i as int]);
            assert(all[i as int] == lines@[i as int]@);
            assert(all.skip(i as int).drop_first() =~= all.skip(i as int + 1));
        }
        match found {
            Some(server) => {
                return Some(server);
            },
            None => {},
        }
        i = i + 1;
    }
    proof {
        assert(all.skip(lines@.len() as int).len() == 0);
    }
    None
}

/// The decision after the repository-listing probe. A probe that could
/// not be launched fails the whole detection; a probe that ran scans its
/// output for a server identifier; a non-zero exit, or output without an
/// identifier, defers to the server-listing fallback.
pub fn lrep_step(outcome: InvokeOutcome) -> (d: ServerProbe)
    ensures
        match outcome {
            InvokeOutcome::NotLaunched { error } => d matches ServerProbe::Failed { error: e }
                && e matches CmError::LaunchFailed { message } && message@
                == "Failed to run cm lrep: "@ + error@,
            InvokeOutcome::Ran { exit_success, stdout, .. } => if exit_success {
                match first_server_in(split_char(stdout@, '\n')) {
                    Some(s) => d matches ServerProbe::Found { server } && server@ == s,
                    None => d is TryFallback,
                }
            } else {
                d is TryFallback
            },
        },
{
    match outcome {
        InvokeOutcome::NotLaunched { error } => {
            let message = crate::types::launch_failed_message("cm lrep", error.as_str());
            proof {
                reveal_strlit("Failed to run ");
                reveal_strlit("cm lrep");
                reveal_strlit(": ");
                reveal_strlit("Failed to run cm lrep: ");
                assert("Failed to run "@ + "cm lrep"@ + ": "@ =~= "Failed to run cm lrep: "@);
                assert(message@ =~= "Failed to run cm lrep: "@ + error@);
            }
            ServerProbe::Failed { error: CmError::LaunchFailed { message } }
        },
        InvokeOutcome::Ran { exit_success, stdout, .. } => {
            if exit_success {
                let lines = split_str(stdout.as_str(), '\n');
                match scan_for_server(&lines) {
                    Some(server) => ServerProbe::Found { server },
                    None => ServerProbe::TryFallback,
                }
            } else {
                ServerProbe::TryFallback
            }
        },
    }
}

fn scan_for_cloud_line(lines: &Vec<String>) -> (r: Option<String>)
    ensures
        match first_cloud_line_in(string_views(lines@)) {
            Some(s) => r matches Some(v) && v@ == s,
            None => r is None,
        },
{
    let ghost all = string_views(lines@);
    let mut i: usize = 0;
    proof {
        assert(all.skip(0) =~= all);
    }
    while i < lines.len()
        invariant
            all == string_views(lines@),
            i <= lines.len(),
            all.len() == lines@.len(),
            first_cloud_line_in(all.skip(i as int)) == first_cloud_line_in(all),
        decreases lines@.len() - i,
    {
        let line = &lines[i];
        let t = trim_str(line.as_str());
        proof {
            assert(all.skip(i as int)[0] == all[i as int]);
            assert(all[i as int] == lines@[i as int]@);
            assert(all.skip(i as int).drop_first() =~= all.skip(i as int + 1));
        }
        if contains_substr(t, "cloud") {
            return Some(t.to_owned());
        }
        i = i + 1;
    }
    proof {
        assert(all.skip(lines@.len() as int).len() == 0);
    }
    None
}

/// The decision after the server-listing fallback: the first trimmed
/// line containing "cloud" is the server; anything else means no server
/// could be detected. A fallback that could not be launched fails with
/// the underlying error.
pub fn listservers_step(outcome: InvokeOutcome) -> (r: Result<String, CmError>)
    ensures
        match outcome {
            InvokeOutcome::NotLaunched { error } => r matches Err(e) && e matches
                CmError::LaunchFailed { message } && message@ == "Failed to run cm listservers: "@
                + error@,
            InvokeOutcome::Ran { exit_success, stdout, .. } => if exit_success {
                match first_cloud_line_in(split_char(stdout@, '\n')) {
                    Some(t) => r matches Ok(s) && s@ == t,
                    None => r matches Err(CmError::ServerNotDetected),
                }
            } else {
                r matches Err(CmError::ServerNotDetected)
            },
        },
{
    match outcome {
        InvokeOutcome::NotLaunched { error } => {
            let message = crate::types::launch_failed_message("cm listservers", error.as_str());
            proof {
                reveal_strlit("Failed to run ");
                reveal_strlit("cm listservers");
                reveal_strlit(": ");
                reveal_strlit("Failed to run cm listservers: ");
                assert("Failed to run "@ + "cm listservers"@ + ": "@
                    =~= "Failed to run cm listservers: "@);
                assert(message@ =~= "Failed to run cm listservers: "@ + error@);
            }
            Err(CmError::LaunchFailed { message })
        },
        InvokeOutcome::Ran { exit_success, stdout, .. } => {
            if exit_success {
                let lines = split_str(stdout.as_str(), '\n');
                match scan_for_cloud_line(&lines) {
                    Some(server) => Ok(server),
                    None => Err(CmError::ServerNotDetected),
                }
            } else {
                Err(CmError::ServerNotDetected)
            }
        },
    }
}

} // verus!
