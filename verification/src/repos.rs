//! Parsing the repository listing of a server, and the argument lists of
//! the listing subcommand.

use vstd::prelude::*;
use vstd::string::StringExecFns;
use crate::text::{split_char, split_str, starts_with_spec, starts_with_str, string_views,
    trim_spec, trim_str};
use crate::types::{CmError, InvokeOutcome, PlasticRepo};

verus! {

/// The argument list of the "find repositories on server" subcommand, as
/// the repository-listing operation issues it, with the server embedded
/// as a quoted argument.
pub fn find_repos_args_quoted(server: &str) -> (a: Vec<String>)
    ensures
        string_views(a@) =~= seq![
            "find"@,
            "repos"@,
            "on"@,
            "repserver"@,
            "'"@ + server@ + "'"@,
        ],
{
    let mut a: Vec<String> = Vec::new();
    a.push(String::from_str("find"));
    a.push(String::from_str("repos"));
    a.push(String::from_str("on"));
    a.push(String::from_str("repserver"));
    let mut quoted = String::from_str("'");
    quoted.append(server);
    quoted.append("'");
    a.push(quoted);
    a
}

/// The argument list of the "find repositories on server" subcommand, as
/// the aggregator issues it, with the server embedded verbatim.
pub fn find_repos_args(server: &str) -> (a: Vec<String>)
    ensures
        string_views(a@) =~= seq!["find"@, "repos"@, "on"@, "repserver"@, server@],
{
    let mut a: Vec<String> = Vec::new();
    a.push(String::from_str("find"));
    a.push(String::from_str("repos"));
    a.push(String::from_str("on"));
    a.push(String::from_str("repserver"));
    a.push(server.to_owned());
    a
}

/// A fully-qualified repository reference: `<name>@<server>`.
pub fn repo_full_name(name: &str, server: &str) -> (r: String)
    ensures
        r@ == name@ + "@"@ + server@,
{
    let mut r = name.to_owned();
    r.append("@");
    r.append(server);
    r
}

/// The repository name one listing line yields for the repository-listing
/// operation: the trimmed line, unless empty or the "Repository" header.
pub open spec fn keep_repo_line(l: Seq<char>) -> Option<Seq<char>> {
    let t = trim_spec(l);
    if t.len() > 0 && !starts_with_spec(t, "Repository"@) {
        Some(t)
    } else {
        None
    }
}

/// The usable repository names in listing output, in order.
pub open spec fn usable_repo_lines(lines: Seq<Seq<char>>) -> Seq<Seq<char>>
    decreases lines.len(),
{
    if lines.len() == 0 {
        Seq::empty()
    } else {
        let rest = usable_repo_lines(lines.drop_last());
        match keep_repo_line(lines.last()) {
            Some(t) => rest + seq![t],
            None => rest,
        }
    }
}

/// The names of a sequence of repository records.
pub open spec fn repo_names(rs: Seq<PlasticRepo>) -> Seq<Seq<char>> {
    rs.map_values(|r: PlasticRepo| r.name@)
}

/// Parses the repository listing of `server`: every usable line becomes
/// one record paired with the queried server, preserving input order. A
/// non-zero exit fails with the captured standard-error text; a launch
/// failure fails with the underlying error text.
pub fn parse_repos(server: &str, outcome: InvokeOutcome) -> (r: Result<Vec<PlasticRepo>, CmError>)
    ensures
        match outcome {
            InvokeOutcome::NotLaunched { error } => r matches Err(e) && e matches
                CmError::LaunchFailed { message } && message@ == "Failed to run cm find repos: "@
                + error@,
            InvokeOutcome::Ran { exit_success, stdout, stderr } => if exit_success {
                r matches Ok(v) && repo_names(v@) == usable_repo_lines(split_char(stdout@, '\n'))
                    && (forall|j: int| 0 <= j < v@.len() ==> (#[trigger] v@[j]).server@ == server@)
            } else {
                r matches Err(e) && e matches CmError::SubcommandFailed { message } && message@
                    == "cm find repos failed: "@ + stderr@
            },
        },
{
    match outcome {
        InvokeOutcome::NotLaunched { error } => {
            let message = crate::types::launch_failed_message("cm find repos", error.as_str());
            proof {
                reveal_strlit("Failed to run ");
                reveal_strlit("cm find repos");
                reveal_strlit(": ");
                reveal_strlit("Failed to run cm find repos: ");
                assert("Failed to run "@ + "cm find repos"@ + ": "@
                    =~= "Failed to run cm find repos: "@);
                assert(message@ =~= "Failed to run cm find repos: "@ + error@);
            }
            Err(CmError::LaunchFailed { message })
        },
        InvokeOutcome::Ran { exit_success, stdout, stderr } => {
            if !exit_success {
                let mut message = String::from_str("cm find repos failed: ");
                message.append(stderr.as_str());
                return Err(CmError::SubcommandFailed { message });
            }
            let lines = split_str(stdout.as_str(), '\n');
            let ghost lv = string_views(lines@);
            let mut repos: Vec<PlasticRepo> = Vec::new();
            let mut i: usize = 0;
            proof {
                assert(lv.take(0) =~= Seq::<Seq<char>>::empty());
                assert(repo_names(repos@) =~= usable_repo_lines(lv.take(0)));
            }
            while i < lines.len()
                invariant
                    lv == string_views(lines@),
                    lv == split_char(stdout@, '\n'),
                    i <= lines.len(),
                    lv.len() == lines@.len(),
                    repo_names(repos@) == usable_repo_lines(lv.take(i as int)),
                    forall|j: int|
                        0 <= j < repos@.len() ==> (#[trigger] repos@[j]).server@ == server@,
                decreases lines@.len() - i,
            {
                let t = trim_str(lines[i].as_str());
                proof {
                    assert(lv[i as int] == lines@[i as int]@);
                    assert(lv.take(i as int + 1).drop_last() =~= lv.take(i as int));
                    assert(lv.take(i as int + 1).last() == lv[i as int]);
                }
                if !t.is_empty() && !starts_with_str(t, "Repository") {
                    let rec = PlasticRepo { name: t.to_owned(), server: server.to_owned() };
                    repos.push(rec);
                    proof {
                        assert(repo_names(repos@) =~= usable_repo_lines(lv.take(i as int))
                            + seq![trim_spec(lv[i as int])]);
                    }
                } else {
                    proof {
                        assert(keep_repo_line(lv[i as int]) is None);
                    }
                }
                i = i + 1;
            }
            proof {
                assert(lv.take(lines@.len() as int) =~= lv);
            }
            Ok(repos)
        },
    }
}

/// Listing output whose first line is filtered out (the header) and
/// whose remaining lines are each kept as they stand yields exactly
/// those remaining lines, in input order. Together with the contract of
/// `parse_repos`, a header followed by N usable lines yields exactly N
/// records, each paired with the queried server.
pub proof fn law_header_then_names(lines: Seq<Seq<char>>)
    requires
        lines.len() >= 1,
        keep_repo_line(lines[0]) is None,
        forall|i: int| 1 <= i < lines.len() ==> #[trigger] keep_repo_line(lines[i]) == Some(
            lines[i],
        ),
    ensures
        usable_repo_lines(lines) == lines.drop_first(),
    decreases lines.len(),
{
    if lines.len() == 1 {
        assert(lines.drop_last() =~= Seq::<Seq<char>>::empty());
        assert(lines.last() == lines[0]);
        assert(usable_repo_lines(lines.drop_last()) =~= Seq::<Seq<char>>::empty());
        assert(lines.drop_first() =~= Seq::<Seq<char>>::empty());
        assert(usable_repo_lines(lines) =~= lines.drop_first());
    } else {
        let front = lines.drop_last();
        assert(front[0] == lines[0]);
        assert(forall|i: int| 1 <= i < front.len() ==> front[i] == lines[i]);
        law_header_then_names(front);
        assert(keep_repo_line(lines.last()) == Some(lines.last()));
        assert(usable_repo_lines(lines) =~= front.drop_first() + seq![lines.last()]);
        assert(front.drop_first() + seq![lines.last()] =~= lines.drop_first());
    }
}

/// The repository name one listing line yields for the aggregator: the
/// trimmed line, unless empty or one of the "Repository" / "Name"
/// headers.
pub open spec fn keep_name_line(l: Seq<char>) -> Option<Seq<char>> {
    let t = trim_spec(l);
    if t.len() > 0 && !starts_with_spec(t, "Repository"@) && !starts_with_spec(t, "Name"@) {
        Some(t)
    } else {
        None
    }
}

/// The usable repository names the aggregator draws from listing output.
pub open spec fn usable_name_lines(lines: Seq<Seq<char>>) -> Seq<Seq<char>>
    decreases lines.len(),
{
    if lines.len() == 0 {
        Seq::empty()
    } else {
        let rest = usable_name_lines(lines.drop_last());
        match keep_name_line(lines.last()) {
            Some(t) => rest + seq![t],
            None => rest,
        }
    }
}

/// The aggregator's first step: the usable repository names of `server`.
/// A non-zero exit is fatal, embedding both captured streams; an empty
/// name list is fatal, naming the server and echoing the raw output; a
/// launch failure fails with the underlying error text.
pub fn repo_names_step(server: &str, outcome: InvokeOutcome) -> (r: Result<Vec<String>, CmError>)
    ensures
        match outcome {
            InvokeOutcome::NotLaunched { error } => r matches Err(e) && e matches
                CmError::LaunchFailed { message } && message@ == "Failed to run cm find repos: "@
                + error@,
            InvokeOutcome::Ran { exit_success, stdout, stderr } => if exit_success {
                if usable_name_lines(split_char(stdout@, '\n')).len() == 0 {
                    r matches Err(e) && e matches CmError::NoRepositoriesFound {
                        server: sv,
                        raw_output,
                    } && sv@ == server@ && raw_output@ == trim_spec(stdout@)
                } else {
                    r matches Ok(v) && string_views(v@) == usable_name_lines(
                        split_char(stdout@, '\n'),
                    )
                }
            } else {
                r matches Err(e) && e matches CmError::SubcommandFailed { message } && message@
                    == "Failed to list repos (stderr: "@ + trim_spec(stderr@) + ", stdout: "@
                    + trim_spec(stdout@) + ")"@
            },
        },
{
    match outcome {
        InvokeOutcome::NotLaunched { error } => {
            let message = crate::types::launch_failed_message("cm find repos", error.as_str());
            proof {
                reveal_strlit("Failed to run ");
                reveal_strlit("cm find repos");
                reveal_strlit(": ");
                reveal_strlit("Failed to run cm find repos: ");
                assert("Failed to run "@ + "cm find repos"@ + ": "@
                    =~= "Failed to run cm find repos: "@);
                assert(message@ =~= "Failed to run cm find repos: "@ + error@);
            }
            Err(CmError::LaunchFailed { message })
        },
        InvokeOutcome::Ran { exit_success, stdout, stderr } => {
            if !exit_success {
                let mut message = String::from_str("Failed to list repos (stderr: ");
                message.append(crate::types::trimmed_owned(stderr.as_str()).as_str());
                message.append(", stdout: ");
                message.append(crate::types::trimmed_owned(stdout.as_str()).as_str());
                message.append(")");
                return Err(CmError::SubcommandFailed { message });
            }
            let lines = split_str(stdout.as_str(), '\n');
            let ghost lv = string_views(lines@);
            let mut names: Vec<String> = Vec::new();
            let mut i: usize = 0;
            proof {
                assert(lv.take(0) =~= Seq::<Seq<char>>::empty());
                assert(string_views(names@) =~= usable_name_lines(lv.take(0)));
            }
            while i < lines.len()
                invariant
                    lv == string_views(lines@),
                    lv == split_char(stdout@, '\n'),
                    i <= lines.len(),
                    lv.len() == lines@.len(),
                    string_views(names@) == usable_name_lines(lv.take(i as int)),
                decreases lines@.len() - i,
            {
                let t = trim_str(lines[i].as_str());
                proof {
                    assert(lv[i as int] == lines@[i as int]@);
                    assert(lv.take(i as int + 1).drop_last() =~= lv.take(i as int));
                    assert(lv.take(i as int + 1).last() == lv[i as int]);
                }
                if !t.is_empty() && !starts_with_str(t, "Repository") && !starts_with_str(
                    t,
                    "Name",
                ) {
                    names.push(t.to_owned());
                    proof {
                        assert(string_views(names@) =~= usable_name_lines(lv.take(i as int))
                            + seq![trim_spec(lv[i as int])]);
                    }
                } else {
                    proof {
                        assert(keep_name_line(lv[i as int]) is None);
                    }
                }
                i = i + 1;
            }
            proof {
                assert(lv.take(lines@.len() as int) =~= lv);
            }
            if names.is_empty() {
                let raw_output = crate::types::trimmed_owned(stdout.as_str());
                return Err(
                    CmError::NoRepositoriesFound { server: server.to_owned(), raw_output },
                );
            }
            Ok(names)
        },
    }
}

} // verus!
