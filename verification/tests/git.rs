use chrono::{TimeZone, Utc};
use rapstat::git::{git_time_to_utc, remote_ref_name, tally_contributors, CommitInfo, RepoInfo};
use rapstat::timestamp::Timestamp;

fn at(y: i32, mo: u32, d: u32, h: u32, mi: u32, s: u32) -> Timestamp {
    let t = Utc.with_ymd_and_hms(y, mo, d, h, mi, s).unwrap();
    Timestamp::from_parts(t.timestamp(), t.timestamp_subsec_nanos()).unwrap()
}

#[test]
fn contributors_most_commits_first_with_latest_activity() {
    let t = |h: u32| at(2026, 4, 24, h, 0, 0);
    let commits = vec![
        ("alice".to_string(), t(9)),
        ("bob".to_string(), t(8)),
        ("alice".to_string(), t(7)),
        ("carol".to_string(), t(6)),
        ("bob".to_string(), t(11)),
        ("bob".to_string(), t(5)),
    ];
    let r = tally_contributors(&commits);
    let got: Vec<(String, usize, Timestamp)> =
        r.iter().map(|c| (c.name.clone(), c.commit_count, c.last_active)).collect();
    assert_eq!(
        got,
        vec![
            ("bob".to_string(), 3, t(11)),
            ("alice".to_string(), 2, t(9)),
            ("carol".to_string(), 1, t(6)),
        ]
    );
}

#[test]
fn contributors_with_equal_counts_keep_first_appearance() {
    let t = at(2026, 1, 1, 0, 0, 0);
    let commits = vec![("zed".to_string(), t), ("amy".to_string(), t), ("kim".to_string(), t)];
    let names: Vec<String> = tally_contributors(&commits).iter().map(|c| c.name.clone()).collect();
    assert_eq!(names, vec!["zed", "amy", "kim"]);
    assert!(tally_contributors(&vec![]).is_empty());
}

#[test]
fn remote_reference_of_a_branch() {
    assert_eq!(remote_ref_name("main"), "refs/remotes/origin/main");
    assert_eq!(remote_ref_name("feature/x"), "refs/remotes/origin/feature/x");
}

#[test]
fn repo_info_counts_days_from_now() {
    let commit = CommitInfo {
        sha: "abc".to_string(),
        message: "m".to_string(),
        author: "a".to_string(),
        timestamp: at(2026, 4, 20, 12, 0, 0),
    };
    let now = at(2026, 4, 24, 11, 0, 0);
    let info = RepoInfo::new("main".to_string(), commit, 2, Some(at(2026, 4, 10, 12, 0, 0)), now, vec![]);
    assert_eq!(info.days_since_last_commit, 3);
    assert_eq!(info.days_since_last_push, Some(13));
    assert_eq!(info.commits_since_push, 2);
    assert_eq!(info.branch, "main");

    let commit2 = CommitInfo {
        sha: "abc".to_string(),
        message: "m".to_string(),
        author: "a".to_string(),
        timestamp: at(2026, 4, 26, 0, 0, 0),
    };
    let never = RepoInfo::new("dev".to_string(), commit2, 0, None, now, vec![]);
    assert_eq!(never.days_since_last_commit, -1);
    assert_eq!(never.days_since_last_push, None);
}

#[test]
fn commit_times_outside_chrono_fall_back_to_now() {
    let now = at(2026, 4, 24, 12, 0, 0);
    let t = git_time_to_utc(1_700_000_000, now);
    assert_eq!((t.secs(), t.nanos()), (1_700_000_000, 0));
    assert_eq!(git_time_to_utc(i64::MAX, now), now);
    assert_eq!(git_time_to_utc(i64::MIN, now), now);
}
