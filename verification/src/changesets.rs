//! Parsing changeset history lines and aggregating per-repository
//! queries into one date-ordered, size-bounded result.

use vstd::prelude::*;
use vstd::string::StringExecFns;
use crate::text::{
    lex_le, lex_le_str, lemma_lex_le_total, lemma_lex_le_trans, parse_i32, parse_i32_spec,
    split_char, split_str, splitn_char, splitn_str, string_views, trim_spec, trim_str,
};
use crate::types::{changeset_views, Changeset, ChangesetView, InvokeOutcome};

verus! {

/// The argument list of the "find changesets on repository" subcommand:
/// the pipe-delimited record format, total-count suppression, and the
/// fixed per-repository cap of the 20 most relevant records.
pub fn find_changesets_args(repo_full: &str) -> (a: Vec<String>)
    ensures
        string_views(a@) =~= seq![
            "find"@,
            "changesets"@,
            "on"@,
            "repository"@,
            repo_full@,
            "--format={changesetid}|{owner}|{date}|{comment}|{branch}"@,
            "--nototal"@,
            "-n"@,
            "20"@,
        ],
{
    let mut a: Vec<String> = Vec::new();
    a.push(String::from_str("find"));
    a.push(String::from_str("changesets"));
    a.push(String::from_str("on"));
    a.push(String::from_str("repository"));
    a.push(repo_full.to_owned());
    a.push(String::from_str("--format={changesetid}|{owner}|{date}|{comment}|{branch}"));
    a.push(String::from_str("--nototal"));
    a.push(String::from_str("-n"));
    a.push(String::from_str("20"));
    a
}

/// The caller-supplied result limit, defaulting to 100.
pub fn default_limit(limit: Option<u32>) -> (l: u32)
    ensures
        limit matches Some(v) ==> l == v,
        limit is None ==> l == 100,
{
    match limit {
        Some(v) => v,
        None => 100,
    }
}

/// The record one line of history output yields, if any: the trimmed
/// line is split on `|` into at most five fields (so separators embedded
/// in the trailing content stay in the fifth field); a record is produced
/// exactly when five fields are present and the first parses as a signed
/// integer. Fields map positionally: id, author, date, comment, branch.
pub open spec fn parse_changeset_view(line: Seq<char>, repo: Seq<char>) -> Option<ChangesetView> {
    let t = trim_spec(line);
    let parts = splitn_char(t, '|', 5);
    if parts.len() >= 5 && parse_i32_spec(parts[0]) is Some {
        Some(
            ChangesetView {
                id: parse_i32_spec(parts[0])->0 as int,
                author: parts[1],
                date: parts[2],
                comment: parts[3],
                branch: parts[4],
                repository: repo,
            },
        )
    } else {
        None
    }
}

/// Parses one line of history output, tagging the record with the given
/// repository name; a malformed line yields nothing (and no error).
pub fn parse_changeset_line(line: &str, repo: &str) -> (r: Option<Changeset>)
    ensures
        match parse_changeset_view(line@, repo@) {
            Some(v) => r matches Some(c) && c@ == v,
            None => r is None,
        },
{
    let t = trim_str(line);
    let parts = splitn_str(t, '|', 5);
    proof {
        assert(forall|k: int|
            0 <= k < parts@.len() ==> #[trigger] string_views(parts@)[k] == parts@[k]@);
    }
    if parts.len() >= 5 {
        match parse_i32(parts[0].as_str()) {
            Some(id) => {
                let c = Changeset {
                    id,
                    author: parts[1].clone(),
                    date: parts[2].clone(),
                    comment: parts[3].clone(),
                    branch: parts[4].clone(),
                    repository: repo.to_owned(),
                };
                Some(c)
            },
            None => None,
        }
    } else {
        None
    }
}

/// The records a sequence of output lines yields, in order, skipping
/// malformed lines.
pub open spec fn parsed_changesets(lines: Seq<Seq<char>>, repo: Seq<char>) -> Seq<ChangesetView>
    decreases lines.len(),
{
    if lines.len() == 0 {
        Seq::empty()
    } else {
        let rest = parsed_changesets(lines.drop_last(), repo);
        match parse_changeset_view(lines.last(), repo) {
            Some(v) => rest + seq![v],
            None => rest,
        }
    }
}

/// Parses every line of one repository's history output.
pub fn parse_changesets(stdout: &str, repo: &str) -> (r: Vec<Changeset>)
    ensures
        changeset_views(r@) == parsed_changesets(split_char(stdout@, '\n'), repo@),
{
    let lines = split_str(stdout, '\n');
    let ghost lv = string_views(lines@);
    let mut out: Vec<Changeset> = Vec::new();
    let mut i: usize = 0;
    proof {
        assert(lv.take(0) =~= Seq::<Seq<char>>::empty());
        assert(changeset_views(out@) =~= parsed_changesets(lv.take(0), repo@));
    }
    while i < lines.len()
        invariant
            lv == string_views(lines@),
            lv == split_char(stdout@, '\n'),
            i <= lines.len(),
            lv.len() == lines@.len(),
            changeset_views(out@) == parsed_changesets(lv.take(i as int), repo@),
        decreases lines@.len() - i,
    {
        proof {
            assert(lv[i as int] == lines@[i as int]@);
            assert(lv.take(i as int + 1).drop_last() =~= lv.take(i as int));
            assert(lv.take(i as int + 1).last() == lv[i as int]);
        }
        match parse_changeset_line(lines[i].as_str(), repo) {
            Some(c) => {
                let ghost v = parse_changeset_view(lv[i as int], repo@)->0;
                out.push(c);
                proof {
                    assert(changeset_views(out@) =~= parsed_changesets(lv.take(i as int), repo@)
                        + seq![v]);
                }
            },
            None => {},
        }
        i = i + 1;
    }
    proof {
        assert(lv.take(lines@.len() as int) =~= lv);
    }
    out
}

/// What one repository contributes to the aggregate: its parsed records
/// when its query ran and exited zero, and nothing at all otherwise.
pub open spec fn repo_contribution(repo: Seq<char>, oc: InvokeOutcome) -> Seq<ChangesetView> {
    match oc {
        InvokeOutcome::Ran { exit_success, stdout, .. } => if exit_success {
            parsed_changesets(split_char(stdout@, '\n'), repo)
        } else {
            Seq::empty()
        },
        InvokeOutcome::NotLaunched { .. } => Seq::empty(),
    }
}

/// A sub-query that did not run to a zero exit contributes nothing: its
/// failure is recovered locally and never surfaces.
pub proof fn law_failed_query_contributes_nothing(repo: Seq<char>, oc: InvokeOutcome)
    requires
        !(oc matches InvokeOutcome::Ran { exit_success: true, .. }),
    ensures
        repo_contribution(repo, oc) == Seq::<ChangesetView>::empty(),
{
}

/// Parses one repository's query outcome, skipping the repository
/// entirely when its query failed to launch or exited non-zero.
pub fn repo_changesets(repo_name: &str, outcome: &InvokeOutcome) -> (r: Vec<Changeset>)
    ensures
        changeset_views(r@) == repo_contribution(repo_name@, *outcome),
{
    match outcome {
        InvokeOutcome::Ran { exit_success, stdout, .. } => {
            if *exit_success {
                parse_changesets(stdout.as_str(), repo_name)
            } else {
                let r: Vec<Changeset> = Vec::new();
                proof {
                    assert(changeset_views(r@) =~= Seq::<ChangesetView>::empty());
                }
                r
            }
        },
        InvokeOutcome::NotLaunched { .. } => {
            let r: Vec<Changeset> = Vec::new();
            proof {
                assert(changeset_views(r@) =~= Seq::<ChangesetView>::empty());
            }
            r
        },
    }
}

/// The concatenation of every repository's contribution, in input order.
pub open spec fn all_contributions(names: Seq<String>, ocs: Seq<InvokeOutcome>) -> Seq<
    ChangesetView,
>
    recommends
        names.len() == ocs.len(),
    decreases names.len(),
{
    if names.len() == 0 {
        Seq::empty()
    } else {
        all_contributions(names.drop_last(), ocs.drop_last()) + repo_contribution(
            names.last()@,
            ocs.last(),
        )
    }
}

/// With two repositories of which the second's query failed, the
/// aggregate input is exactly the surviving repository's contribution.
pub proof fn law_two_repo_partial_failure(
    n1: String,
    n2: String,
    o1: InvokeOutcome,
    o2: InvokeOutcome,
)
    requires
        !(o2 matches InvokeOutcome::Ran { exit_success: true, .. }),
    ensures
        all_contributions(seq![n1, n2], seq![o1, o2]) == repo_contribution(n1@, o1),
{
    let names = seq![n1, n2];
    let ocs = seq![o1, o2];
    assert(names.drop_last() =~= seq![n1]);
    assert(ocs.drop_last() =~= seq![o1]);
    assert(seq![n1].drop_last() =~= Seq::<String>::empty());
    assert(seq![o1].drop_last() =~= Seq::<InvokeOutcome>::empty());
    assert(seq![n1].last() == n1);
    assert(seq![o1].last() == o1);
    assert(names.last() == n2);
    assert(ocs.last() == o2);
    assert(all_contributions(Seq::<String>::empty(), Seq::<InvokeOutcome>::empty())
        == Seq::<ChangesetView>::empty());
    assert(all_contributions(seq![n1], seq![o1]) =~= Seq::<ChangesetView>::empty()
        + repo_contribution(n1@, o1));
    assert(all_contributions(seq![n1], seq![o1]) =~= repo_contribution(n1@, o1));
    assert(repo_contribution(n2@, o2) =~= Seq::<ChangesetView>::empty());
    assert(all_contributions(names, ocs) =~= all_contributions(seq![n1], seq![o1])
        + repo_contribution(n2@, o2));
    assert(all_contributions(names, ocs) =~= repo_contribution(n1@, o1));
}

/// Collects every repository's records, in input order; a failed
/// sub-query is skipped and aborts nothing.
pub fn collect_changesets(names: &Vec<String>, outcomes: &Vec<InvokeOutcome>) -> (all: Vec<
    Changeset,
>)
    requires
        names@.len() == outcomes@.len(),
    ensures
        changeset_views(all@) == all_contributions(names@, outcomes@),
{
    let mut all: Vec<Changeset> = Vec::new();
    let mut i: usize = 0;
    proof {
        assert(names@.take(0) =~= Seq::<String>::empty());
        assert(changeset_views(all@) =~= all_contributions(names@.take(0), outcomes@.take(0)));
    }
    while i < names.len()
        invariant
            names@.len() == outcomes@.len(),
            i <= names.len(),
            changeset_views(all@) == all_contributions(names@.take(i as int), outcomes@.take(
                i as int,
            )),
        decreases names@.len() - i,
    {
        let mut part = repo_changesets(names[i].as_str(), &outcomes[i]);
        let ghost contributed = changeset_views(part@);
        proof {
            assert(names@.take(i as int + 1).drop_last() =~= names@.take(i as int));
            assert(outcomes@.take(i as int + 1).drop_last() =~= outcomes@.take(i as int));
            assert(names@.take(i as int + 1).last() == names@[i as int]);
            assert(outcomes@.take(i as int + 1).last() == outcomes@[i as int]);
        }
        all.append(&mut part);
        proof {
            assert(changeset_views(all@) =~= all_contributions(names@.take(i as int),
                outcomes@.take(i as int)) + contributed);
        }
        i = i + 1;
    }
    proof {
        assert(names@.take(names@.len() as int) =~= names@);
        assert(outcomes@.take(outcomes@.len() as int) =~= outcomes@);
    }
    all
}

// ---------------------------------------------------------------------------
// Ordering, sorting, truncation
// ---------------------------------------------------------------------------

/// Records in descending date order, under the isolated lexicographic
/// comparison. This is byte-order on the date text, not calendar order:
/// it is correct only while all dates share one zero-padded format.
pub open spec fn sorted_desc(s: Seq<ChangesetView>) -> bool {
    forall|i: int, j: int| 0 <= i < j < s.len() ==> #[trigger] lex_le(s[j].date, s[i].date)
}

fn max_date_index(v: &Vec<Changeset>) -> (m: usize)
    requires
        v@.len() > 0,
    ensures
        m < v@.len(),
        forall|k: int| 0 <= k < v@.len() ==> lex_le(#[trigger] v@[k].date@, v@[m as int].date@),
{
    let mut m: usize = 0;
    let mut k: usize = 1;
    proof {
        lemma_lex_le_total(v@[0].date@, v@[0].date@);
    }
    while k < v.len()
        invariant
            m < k <= v@.len(),
            forall|t: int| 0 <= t < k ==> lex_le(#[trigger] v@[t].date@, v@[m as int].date@),
        decreases v@.len() - k,
    {
        let le = lex_le_str(v[k].date.as_str(), v[m].date.as_str());
        if !le {
            proof {
                lemma_lex_le_total(v@[k as int].date@, v@[m as int].date@);
                assert forall|t: int| 0 <= t < k + 1 implies lex_le(
                    #[trigger] v@[t].date@,
                    v@[k as int].date@,
                ) by {
                    if t < k {
                        lemma_lex_le_trans(v@[t].date@, v@[m as int].date@, v@[k as int].date@);
                    } else {
                        lemma_lex_le_total(v@[k as int].date@, v@[k as int].date@);
                    }
                }
            }
            m = k;
        } else {
            proof {
                assert(forall|t: int|
                    0 <= t < k + 1 ==> lex_le(#[trigger] v@[t].date@, v@[m as int].date@));
            }
        }
        k = k + 1;
    }
    m
}

/// Sorts records by descending date: the result is a reordering of the
/// input (same multiset of records) in descending date order.
pub fn sort_changesets_desc(v: Vec<Changeset>) -> (r: Vec<Changeset>)
    ensures
        changeset_views(r@).to_multiset() == changeset_views(v@).to_multiset(),
        sorted_desc(changeset_views(r@)),
{
    broadcast use vstd::seq_lib::group_to_multiset_ensures;
    broadcast use vstd::multiset::group_multiset_axioms;

    let ghost total = changeset_views(v@).to_multiset();
    let mut rest = v;
    let mut out: Vec<Changeset> = Vec::new();
    proof {
        assert(changeset_views(out@) =~= Seq::<ChangesetView>::empty());
        assert(changeset_views(out@).to_multiset().add(changeset_views(rest@).to_multiset())
            =~= total);
    }
    while rest.len() > 0
        invariant
            changeset_views(out@).to_multiset().add(changeset_views(rest@).to_multiset())
                == total,
            sorted_desc(changeset_views(out@)),
            forall|a: int, b: int|
                0 <= a < rest@.len() && 0 <= b < out@.len() ==> lex_le(
                    #[trigger] rest@[a].date@,
                    #[trigger] out@[b].date@,
                ),
        decreases rest@.len(),
    {
        let m = max_date_index(&rest);
        let ghost old_rest = rest@;
        let ghost old_out = out@;
        let x = rest.remove(m);
        out.push(x);
        proof {
            let ov = changeset_views(old_rest);
            let nv = changeset_views(rest@);
            let oo = changeset_views(old_out);
            let no = changeset_views(out@);
            assert(nv =~= ov.remove(m as int));
            assert(no =~= oo.push(x@));
            assert(x@ == ov[m as int]);
            ov.to_multiset_ensures();
            oo.to_multiset_ensures();
            assert(ov.contains(ov[m as int]));
            assert(ov.to_multiset().count(ov[m as int]) > 0);
            assert(nv.to_multiset() =~= ov.to_multiset().remove(ov[m as int]));
            assert(no.to_multiset() =~= oo.to_multiset().insert(x@));
            assert(no.to_multiset().add(nv.to_multiset()) =~= total);
            assert forall|i: int, j: int| 0 <= i < j < no.len() implies #[trigger] lex_le(
                no[j].date,
                no[i].date,
            ) by {
                if j < no.len() - 1 {
                } else {
                    assert(no[i] == oo[i]);
                    assert(no[j] == x@);
                    assert(lex_le(old_rest[m as int].date@, old_out[i].date@));
                }
            }
            assert forall|a: int, b: int|
                0 <= a < rest@.len() && 0 <= b < out@.len() implies lex_le(
                #[trigger] rest@[a].date@,
                #[trigger] out@[b].date@,
            ) by {
                let orig = if a < m { a } else { a + 1 };
                assert(rest@[a] == old_rest[orig]);
                assert(lex_le(old_rest[orig].date@, old_rest[m as int].date@));
                if b < out@.len() - 1 {
                    assert(lex_le(old_rest[orig].date@, old_out[b].date@));
                } else {
                    assert(out@[b] == x);
                }
            }
        }
    }
    out
}

/// Sorts the collected records by descending date and truncates to the
/// caller's limit: the result is the first `min(limit, total)` records
/// of a descending reordering of the input.
pub fn merge_changesets(all: Vec<Changeset>, limit: u32) -> (r: Vec<Changeset>)
    ensures
        ({
            let avs = changeset_views(all@);
            let cut = if (limit as int) <= avs.len() {
                limit as int
            } else {
                avs.len() as int
            };
            &&& changeset_views(r@).len() == cut
            &&& sorted_desc(changeset_views(r@))
            &&& exists|s: Seq<ChangesetView>|
                #[trigger] s.to_multiset() == avs.to_multiset() && sorted_desc(s)
                    && changeset_views(r@) == s.take(cut)
        }),
{
    broadcast use vstd::seq_lib::group_to_multiset_ensures;

    let ghost avs = changeset_views(all@);
    let mut sorted = sort_changesets_desc(all);
    let ghost s = changeset_views(sorted@);
    proof {
        assert(s.to_multiset().len() == avs.to_multiset().len());
        assert(s.len() == avs.len());
    }
    let n = sorted.len();
    let lim: usize = limit as usize;
    let ghost cut = if (limit as int) <= avs.len() {
        limit as int
    } else {
        avs.len() as int
    };
    if lim < n {
        sorted.truncate(lim);
    }
    proof {
        assert(changeset_views(sorted@) =~= s.take(cut));
        assert(changeset_views(sorted@).len() == cut);
        assert(sorted_desc(changeset_views(sorted@)));
    }
    sorted
}

/// The aggregate over every repository's query outcome: each failed
/// sub-query contributes nothing; the surviving records are merged,
/// sorted newest-first by the date text, and truncated to the limit.
pub fn merge_all_changesets(names: &Vec<String>, outcomes: &Vec<InvokeOutcome>, limit: u32) -> (r:
    Vec<Changeset>)
    requires
        names@.len() == outcomes@.len(),
    ensures
        ({
            let avs = all_contributions(names@, outcomes@);
            let cut = if (limit as int) <= avs.len() {
                limit as int
            } else {
                avs.len() as int
            };
            &&& changeset_views(r@).len() == cut
            &&& sorted_desc(changeset_views(r@))
            &&& exists|s: Seq<ChangesetView>|
                #[trigger] s.to_multiset() == avs.to_multiset() && sorted_desc(s)
                    && changeset_views(r@) == s.take(cut)
        }),
{
    let all = collect_changesets(names, outcomes);
    merge_changesets(all, limit)
}

/// With pairwise-distinct dates the descending order is unique: any two
/// reorderings of the same records in descending date order are equal.
/// With the aggregate's contract, distinct dates therefore determine its
/// output completely: the first `min(limit, total)` records of the one
/// descending ordering.
pub proof fn law_distinct_dates_unique_order(x: Seq<ChangesetView>, y: Seq<ChangesetView>)
    requires
        sorted_desc(x),
        sorted_desc(y),
        x.to_multiset() == y.to_multiset(),
        forall|i: int, j: int|
            0 <= i < j < x.len() ==> #[trigger] x[i].date != #[trigger] x[j].date,
    ensures
        x == y,
    decreases x.len(),
{
    broadcast use vstd::multiset::group_multiset_axioms;

    x.to_multiset_ensures();
    y.to_multiset_ensures();
    if x.len() == 0 {
        assert(y.to_multiset().len() == 0);
        assert(x =~= y);
    } else {
        assert(y.len() == x.len());
        assert(x.contains(x[0]));
        assert(y.to_multiset().count(x[0]) > 0);
        assert(y.contains(x[0]));
        let j = choose|j: int| 0 <= j < y.len() && y[j] == x[0];
        assert(x.to_multiset().count(y[0]) > 0);
        assert(x.contains(y[0]));
        let i = choose|i: int| 0 <= i < x.len() && x[i] == y[0];
        if i != 0 && j != 0 {
            assert(lex_le(y[j].date, y[0].date));
            assert(lex_le(x[i].date, x[0].date));
            crate::text::lemma_lex_le_antisym(x[0].date, y[0].date);
            assert(x[0].date != x[i].date);
            assert(false);
        }
        assert(x[0] == y[0]);
        let xt = x.drop_first();
        let yt = y.drop_first();
        assert(xt =~= x.remove(0));
        assert(yt =~= y.remove(0));
        assert(xt.to_multiset() =~= x.to_multiset().remove(x[0]));
        assert(yt.to_multiset() =~= y.to_multiset().remove(y[0]));
        assert(sorted_desc(xt)) by {
            assert forall|p: int, q: int| 0 <= p < q < xt.len() implies #[trigger] lex_le(
                xt[q].date,
                xt[p].date,
            ) by {
                assert(xt[p] == x[p + 1]);
                assert(xt[q] == x[q + 1]);
                assert(lex_le(x[q + 1].date, x[p + 1].date));
            }
        }
        assert(sorted_desc(yt)) by {
            assert forall|p: int, q: int| 0 <= p < q < yt.len() implies #[trigger] lex_le(
                yt[q].date,
                yt[p].date,
            ) by {
                assert(yt[p] == y[p + 1]);
                assert(yt[q] == y[q + 1]);
                assert(lex_le(y[q + 1].date, y[p + 1].date));
            }
        }
        assert(forall|p: int, q: int|
            0 <= p < q < xt.len() ==> #[trigger] xt[p].date != #[trigger] xt[q].date) by {
            assert forall|p: int, q: int|
                0 <= p < q < xt.len() implies #[trigger] xt[p].date != #[trigger] xt[q].date by {
                assert(xt[p] == x[p + 1]);
                assert(xt[q] == x[q + 1]);
                assert(x[p + 1].date != x[q + 1].date);
            }
        }
        law_distinct_dates_unique_order(xt, yt);
        assert forall|p: int| 0 <= p < x.len() implies x[p] == y[p] by {
            if p > 0 {
                assert(x[p] == xt[p - 1]);
                assert(y[p] == yt[p - 1]);
            }
        }
        assert(x =~= y);
    }
}

// ---------------------------------------------------------------------------
// Laws of the line parser
// ---------------------------------------------------------------------------

/// A line whose trimmed text splits into the five fields, the first of
/// which parses as a signed integer, yields exactly one record with the
/// fields mapped positionally and tagged with the repository.
pub proof fn law_valid_line_parses(line: Seq<char>, repo: Seq<char>)
    requires
        ({
            let parts = splitn_char(trim_spec(line), '|', 5);
            parts.len() >= 5 && parse_i32_spec(parts[0]) is Some
        }),
    ensures
        ({
            let parts = splitn_char(trim_spec(line), '|', 5);
            parse_changeset_view(line, repo) == Some(
                ChangesetView {
                    id: parse_i32_spec(parts[0])->0 as int,
                    author: parts[1],
                    date: parts[2],
                    comment: parts[3],
                    branch: parts[4],
                    repository: repo,
                },
            )
        }),
{
}

/// A line with fewer than five fields, or whose first field does not
/// parse as a signed integer, yields no record (and no error).
pub proof fn law_invalid_line_skipped(line: Seq<char>, repo: Seq<char>)
    requires
        ({
            let parts = splitn_char(trim_spec(line), '|', 5);
            parts.len() < 5 || parse_i32_spec(parts[0]) is None
        }),
    ensures
        parse_changeset_view(line, repo) is None,
{
}

} // verus!
