use plastic_cm::changesets::{collect_changesets, default_limit, merge_all_changesets,
    merge_changesets};
use plastic_cm::repos::{parse_repos, repo_full_name, repo_names_step};
use plastic_cm::types::{CmError, InvokeOutcome};

fn ran(exit_success: bool, stdout: &str, stderr: &str) -> InvokeOutcome {
    InvokeOutcome::Ran {
        exit_success,
        stdout: stdout.to_string(),
        stderr: stderr.to_string(),
    }
}

#[test]
fn listing_skips_header_and_pairs_with_server() {
    let out = ran(true, "Repository\nrepo1\nrepo2\n", "");
    let repos = parse_repos("org@cloud", out).unwrap();
    assert_eq!(repos.len(), 2);
    assert_eq!(repos[0].name, "repo1");
    assert_eq!(repos[1].name, "repo2");
    assert!(repos.iter().all(|r| r.server == "org@cloud"));
}

#[test]
fn listing_failure_embeds_stderr() {
    let out = ran(false, "", "boom");
    match parse_repos("s", out) {
        Err(e @ CmError::SubcommandFailed { .. }) => {
            assert_eq!(e.message(), "cm find repos failed: boom");
        },
        other => panic!("unexpected: {:?}", other),
    }
}

#[test]
fn listing_launch_failure_wraps_os_error() {
    let out = InvokeOutcome::NotLaunched { error: "no such file".to_string() };
    match parse_repos("s", out) {
        Err(e @ CmError::LaunchFailed { .. }) => {
            assert_eq!(e.message(), "Failed to run cm find repos: no such file");
        },
        other => panic!("unexpected: {:?}", other),
    }
}

#[test]
fn name_step_filters_both_headers_and_blanks() {
    let out = ran(true, "Repository\nName\n\n  repo1  \nrepo2\n", "");
    let names = repo_names_step("srv", out).unwrap();
    assert_eq!(names, vec!["repo1", "repo2"]);
}

#[test]
fn name_step_with_no_usable_lines_names_the_server() {
    let out = ran(true, "Repository\n\n", "");
    match repo_names_step("org@cloud", out) {
        Err(e @ CmError::NoRepositoriesFound { .. }) => {
            if let CmError::NoRepositoriesFound { server, raw_output } = &e {
                assert_eq!(server, "org@cloud");
                assert_eq!(raw_output, "Repository");
            }
            assert_eq!(
                e.message(),
                "No repositories found on server 'org@cloud'. Raw output: Repository"
            );
        },
        other => panic!("unexpected: {:?}", other),
    }
}

#[test]
fn name_step_nonzero_exit_embeds_both_streams() {
    let out = ran(false, " partial \n", " denied \n");
    match repo_names_step("s", out) {
        Err(e @ CmError::SubcommandFailed { .. }) => {
            assert_eq!(e.message(), "Failed to list repos (stderr: denied, stdout: partial)");
        },
        other => panic!("unexpected: {:?}", other),
    }
}

#[test]
fn merge_sorts_descending_and_truncates() {
    let names = vec!["r1".to_string(), "r2".to_string()];
    let outcomes = vec![
        ran(true, "1|a|2024-01-03|c|b\n2|a|2024-01-01|c|b\n", ""),
        ran(true, "3|a|2024-01-04|c|b\n4|a|2024-01-02|c|b\n", ""),
    ];
    let merged = merge_all_changesets(&names, &outcomes, 3);
    assert_eq!(merged.len(), 3);
    let dates: Vec<&str> = merged.iter().map(|c| c.date.as_str()).collect();
    assert_eq!(dates, vec!["2024-01-04", "2024-01-03", "2024-01-02"]);
    assert_eq!(merged[0].repository, "r2");
    assert_eq!(merged[1].repository, "r1");
}

#[test]
fn one_failed_repository_never_aborts_the_others() {
    let names = vec!["good".to_string(), "bad".to_string()];
    let outcomes = vec![
        ran(true, "1|a|2024-01-01|c|b\n2|a|2024-01-02|c|b\n", ""),
        ran(false, "", "query failed"),
    ];
    let merged = merge_all_changesets(&names, &outcomes, 100);
    assert_eq!(merged.len(), 2);
    assert!(merged.iter().all(|c| c.repository == "good"));
}

#[test]
fn all_repositories_failing_yields_an_empty_list() {
    let names = vec!["a".to_string(), "b".to_string()];
    let outcomes = vec![
        ran(false, "", ""),
        InvokeOutcome::NotLaunched { error: "gone".to_string() },
    ];
    let merged = merge_all_changesets(&names, &outcomes, 100);
    assert!(merged.is_empty());
}

#[test]
fn records_carry_the_short_repository_name() {
    let names = vec!["short".to_string()];
    let outcomes = vec![ran(true, "9|a|2024|c|b\n", "")];
    let all = collect_changesets(&names, &outcomes);
    assert_eq!(all.len(), 1);
    assert_eq!(all[0].repository, "short");
}

#[test]
fn merge_keeps_everything_under_the_limit() {
    let all = plastic_cm::changesets::parse_changesets(
        "1|a|2024-01-01|c|b\n2|a|2024-01-03|c|b\n3|a|2024-01-02|c|b\n",
        "r",
    );
    let merged = merge_changesets(all, 100);
    assert_eq!(merged.len(), 3);
    let ids: Vec<i32> = merged.iter().map(|c| c.id).collect();
    assert_eq!(ids, vec![2, 3, 1]);
}

#[test]
fn limit_defaults_to_one_hundred() {
    assert_eq!(default_limit(None), 100);
    assert_eq!(default_limit(Some(7)), 7);
    assert_eq!(default_limit(Some(0)), 0);
}

#[test]
fn zero_limit_yields_an_empty_list() {
    let names = vec!["r".to_string()];
    let outcomes = vec![ran(true, "1|a|2024|c|b\n", "")];
    assert!(merge_all_changesets(&names, &outcomes, 0).is_empty());
}

#[test]
fn tied_dates_keep_every_record() {
    let names = vec!["r1".to_string(), "r2".to_string()];
    let outcomes = vec![
        ran(true, "1|a|2024-01-01|c|b\n2|a|2024-01-01|c|b\n", ""),
        ran(true, "3|a|2024-01-02|c|b\n", ""),
    ];
    let merged = merge_all_changesets(&names, &outcomes, 100);
    assert_eq!(merged.len(), 3);
    assert_eq!(merged[0].id, 3);
    let mut tied: Vec<i32> = merged[1..].iter().map(|c| c.id).collect();
    tied.sort();
    assert_eq!(tied, vec![1, 2]);
}

#[test]
fn empty_output_of_a_repository_contributes_nothing() {
    let names = vec!["r".to_string()];
    let outcomes = vec![ran(true, "", "")];
    assert!(merge_all_changesets(&names, &outcomes, 100).is_empty());
}

#[test]
fn full_reference_joins_name_and_server() {
    assert_eq!(repo_full_name("repo", "org@cloud"), "repo@org@cloud");
}
