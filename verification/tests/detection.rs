use plastic_cm::changesets::find_changesets_args;
use plastic_cm::repos::{find_repos_args, find_repos_args_quoted};
use plastic_cm::resolver::{
    installed_decision, resolve_command, resolve_validation_path, validate_decision, version_args,
};
use plastic_cm::server::{
    extract_server_from_line, listservers_step, lrep_args, lrep_step, listservers_args,
    ServerProbe,
};
use plastic_cm::text::{contains_substr, lex_le_str, starts_with_str};
use plastic_cm::types::{CmError, ExecutableHandle, InvokeOutcome};

fn ran(exit_success: bool, stdout: &str) -> InvokeOutcome {
    InvokeOutcome::Ran {
        exit_success,
        stdout: stdout.to_string(),
        stderr: String::new(),
    }
}

#[test]
fn three_segments_keep_the_last_two() {
    assert_eq!(extract_server_from_line("myrepo@myorg@cloud").unwrap(), "myorg@cloud");
}

#[test]
fn two_segments_keep_the_last_alone() {
    assert_eq!(extract_server_from_line("myorg@cloud").unwrap(), "cloud");
}

#[test]
fn lines_without_marker_or_separator_yield_nothing() {
    assert!(extract_server_from_line("cloudless").is_none());
    assert!(extract_server_from_line("cloud").is_none());
    assert!(extract_server_from_line("a@b").is_none());
    assert!(extract_server_from_line("").is_none());
}

#[test]
fn probe_returns_the_first_matching_line() {
    let out = ran(true, "junk\nrepo@first@cloud\nrepo@second@cloud\n");
    match lrep_step(out) {
        ServerProbe::Found { server } => assert_eq!(server, "first@cloud"),
        other => panic!("unexpected: {:?}", other),
    }
}

#[test]
fn probe_defers_on_nonzero_exit_or_no_match() {
    assert!(matches!(lrep_step(ran(false, "repo@org@cloud\n")), ServerProbe::TryFallback));
    assert!(matches!(lrep_step(ran(true, "local@here\n")), ServerProbe::TryFallback));
}

#[test]
fn probe_launch_failure_is_fatal() {
    let out = InvokeOutcome::NotLaunched { error: "missing".to_string() };
    match lrep_step(out) {
        ServerProbe::Failed { error } => {
            assert_eq!(error.message(), "Failed to run cm lrep: missing");
        },
        other => panic!("unexpected: {:?}", other),
    }
}

#[test]
fn fallback_takes_the_first_cloud_line_trimmed() {
    let out = ran(true, "local\n  org@cloud  \nother@cloud\n");
    assert_eq!(listservers_step(out).unwrap(), "org@cloud");
}

#[test]
fn fallback_without_match_reports_no_server() {
    match listservers_step(ran(true, "local\n")) {
        Err(e @ CmError::ServerNotDetected) => {
            assert_eq!(
                e.message(),
                "Could not detect Plastic Cloud server. Please ensure you're logged in."
            );
        },
        other => panic!("unexpected: {:?}", other),
    }
    assert!(matches!(listservers_step(ran(false, "org@cloud\n")),
        Err(CmError::ServerNotDetected)));
}

#[test]
fn explicit_nonempty_path_wins() {
    match resolve_command(Some("/opt/cm".to_string())) {
        ExecutableHandle::Explicit { path } => assert_eq!(path, "/opt/cm"),
        other => panic!("unexpected: {:?}", other),
    }
    assert!(matches!(resolve_command(Some(String::new())), ExecutableHandle::DefaultName));
    assert!(matches!(resolve_command(None), ExecutableHandle::DefaultName));
    assert_eq!(resolve_command(None).program(), "cm");
    assert_eq!(resolve_command(Some("/opt/cm".to_string())).program(), "/opt/cm");
}

#[test]
fn directories_are_joined_with_the_executable_name() {
    assert_eq!(resolve_validation_path("/tools", true), "/tools/cm.exe");
    assert_eq!(resolve_validation_path("/tools/", true), "/tools/cm.exe");
    assert_eq!(resolve_validation_path("/tools/cm", false), "/tools/cm");
}

#[test]
fn missing_file_fails_with_the_joined_path() {
    let resolved = resolve_validation_path("/tools", true);
    match validate_decision(resolved, false, None) {
        Err(e @ CmError::NotFound { .. }) => {
            if let CmError::NotFound { path } = &e {
                assert_eq!(path, "/tools/cm.exe");
            }
            assert_eq!(e.message(), "File not found: /tools/cm.exe");
        },
        other => panic!("unexpected: {:?}", other),
    }
}

#[test]
fn working_tool_returns_the_resolved_path() {
    let outcome = Some(ran(true, ""));
    assert_eq!(validate_decision("/t/cm.exe".to_string(), true, outcome).unwrap(), "/t/cm.exe");
}

#[test]
fn nonzero_version_exit_is_execution_failure() {
    match validate_decision("/t/cm.exe".to_string(), true, Some(ran(false, ""))) {
        Err(e @ CmError::ExecutionFailed) => {
            assert_eq!(e.message(), "cm.exe found but failed to execute 'cm version'");
        },
        other => panic!("unexpected: {:?}", other),
    }
}

#[test]
fn unlaunchable_tool_reports_the_os_error() {
    let outcome = Some(InvokeOutcome::NotLaunched { error: "denied".to_string() });
    match validate_decision("/t/cm.exe".to_string(), true, outcome) {
        Err(e @ CmError::LaunchFailed { .. }) => {
            assert_eq!(e.message(), "Failed to execute cm.exe: denied");
        },
        other => panic!("unexpected: {:?}", other),
    }
}

#[test]
fn installed_means_launched_and_exited_zero() {
    assert!(installed_decision(ran(true, "")));
    assert!(!installed_decision(ran(false, "")));
    assert!(!installed_decision(InvokeOutcome::NotLaunched { error: "e".to_string() }));
}

#[test]
fn subcommand_argument_lists_match_the_protocol() {
    assert_eq!(version_args(), vec!["version"]);
    assert_eq!(lrep_args(), vec!["lrep"]);
    assert_eq!(listservers_args(), vec!["listservers"]);
    assert_eq!(
        find_repos_args_quoted("org@cloud"),
        vec!["find", "repos", "on", "repserver", "'org@cloud'"]
    );
    assert_eq!(find_repos_args("org@cloud"), vec!["find", "repos", "on", "repserver", "org@cloud"]);
    assert_eq!(
        find_changesets_args("repo@org@cloud"),
        vec![
            "find",
            "changesets",
            "on",
            "repository",
            "repo@org@cloud",
            "--format={changesetid}|{owner}|{date}|{comment}|{branch}",
            "--nototal",
            "-n",
            "20"
        ]
    );
}

#[test]
fn text_predicates_match_std_behaviour() {
    assert!(contains_substr("plastic cloud server", "cloud"));
    assert!(!contains_substr("plain", "cloud"));
    assert!(starts_with_str("Repository list", "Repository"));
    assert!(!starts_with_str("repo", "Repository"));
    assert!(lex_le_str("2024-01-01", "2024-01-02"));
    assert!(!lex_le_str("2024-01-02", "2024-01-01"));
    assert!(lex_le_str("abc", "abc"));
    assert!(lex_le_str("ab", "abc"));
}
