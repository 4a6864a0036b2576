use chrono::{TimeZone, Utc};
use rapstat::git::{CommitInfo, ContributorInfo, RepoInfo};
use rapstat::status_model::{ContextMdInfo, ContextMdStatus, StatusDoc, Trigger};
use rapstat::tally::TrancheCounts;
use rapstat::timestamp::Timestamp;
use rapstat::workflow::{SprintWipSummary, TrancheWipSummary, WorkflowWipCounts, WorkflowWipStatus};

fn at(y: i32, mo: u32, d: u32, h: u32, mi: u32, s: u32) -> Timestamp {
    let t = Utc.with_ymd_and_hms(y, mo, d, h, mi, s).unwrap();
    Timestamp::from_parts(t.timestamp(), t.timestamp_subsec_nanos()).unwrap()
}

fn sample_repo() -> RepoInfo {
    RepoInfo {
        branch: "main".to_string(),
        last_commit: CommitInfo {
            sha: "abc123".to_string(),
            message: "Test commit".to_string(),
            author: "Tester".to_string(),
            timestamp: at(2026, 4, 24, 12, 0, 0),
        },
        commits_since_push: 1,
        last_push: Some(at(2026, 4, 24, 10, 0, 0)),
        days_since_last_commit: 0,
        days_since_last_push: Some(0),
        contributors: vec![ContributorInfo {
            name: "Tester".to_string(),
            commit_count: 3,
            last_active: at(2026, 4, 24, 12, 0, 0),
        }],
    }
}

fn sprint54() -> SprintWipSummary {
    SprintWipSummary {
        sprint_id: "Sprint54".to_string(),
        sprint_state: Some("EXECUTING".to_string()),
        latest_event_type: Some("validation_requested".to_string()),
        updated_at: Some(at(2026, 4, 24, 12, 30, 0)),
        dispatchable: vec!["S54T2".to_string()],
        wip_tranches: vec![TrancheWipSummary {
            id: "S54T1".to_string(),
            state: "ACTIVE".to_string(),
            depends_on: vec!["S54T0".to_string()],
            last_event: Some("status_active".to_string()),
        }],
        counts: TrancheCounts::new(),
    }
}

fn sample_doc(trigger: Trigger, workflow_wip: Option<WorkflowWipStatus>) -> StatusDoc {
    StatusDoc {
        project: "demo-project".to_string(),
        machine: "test-host".to_string(),
        trigger,
        updated_at: at(2026, 4, 24, 13, 0, 0),
        repo: sample_repo(),
        context_md: ContextMdInfo {
            status: ContextMdStatus::Okay,
            last_modified: Some(at(2026, 4, 24, 11, 0, 0)),
            discrepancies: vec![],
            resolved_path: Some("raptor/context/CONTEXT.md".to_string()),
        },
        workflow_wip,
    }
}

#[test]
fn writes_workflow_wip_section_when_snapshot_present() {
    let workflow_wip = WorkflowWipStatus {
        schema_version: Some("2".to_string()),
        project_id: Some("demo-project".to_string()),
        updated_at: Some(at(2026, 4, 24, 12, 30, 0)),
        current_sprint: Some(sprint54()),
        active_sprint_ids: vec!["Sprint54".to_string()],
        counts: WorkflowWipCounts { total_sprints: 2, active_sprints: 1, closed_sprints: 1 },
        sprints: vec![
            SprintWipSummary {
                sprint_id: "Sprint53".to_string(),
                sprint_state: Some("CLOSED".to_string()),
                latest_event_type: Some("retrospective_recorded".to_string()),
                updated_at: Some(at(2026, 4, 24, 11, 30, 0)),
                dispatchable: vec![],
                wip_tranches: vec![],
                counts: TrancheCounts::new(),
            },
            sprint54(),
        ],
    };
    let doc = sample_doc(Trigger::Scan, Some(workflow_wip));

    let mut rendered = String::new();
    doc.write(&mut rendered);

    assert!(rendered.contains("## Workflow WIP"));
    // One-line project summary
    assert!(rendered.contains("1 active / 2 total sprints"));
    // Compact table row for active sprint only
    assert!(rendered.contains("| Sprint54 | EXECUTING |"));
    assert!(rendered.contains("| S54T2 |")); // dispatchable column
    // WIP tranche section
    assert!(rendered.contains("Sprint54/S54T1 (ACTIVE) \u{2190} S54T0"));
    // Closed sprint must NOT appear in the table
    assert!(!rendered.contains("| Sprint53 | CLOSED |"));
}

#[test]
fn full_document_text() {
    let doc = sample_doc(Trigger::Push, None);
    let mut out = String::new();
    doc.write(&mut out);
    let expected = "---\n\
rapstat_version: 1.0\n\
project: demo-project\n\
machine: test-host\n\
trigger: push\n\
updated_at: 2026-04-24T13:00:00+00:00\n\
branch: main\n\
---\n\
\n\
## Last Commit\n\
- SHA: abc123\n\
- Message: Test commit\n\
- Author: Tester\n\
- Timestamp: 2026-04-24T12:00:00+00:00\n\
\n\
## Activity\n\
- Commits since last push: 1\n\
- Last push: 2026-04-24T10:00:00+00:00\n\
- Days since last push: 0\n\
- Days since last commit: 0\n\
\n\
## CONTEXT.md\n\
- Status: ok\n\
- Path: raptor/context/CONTEXT.md\n\
- Last modified: 2026-04-24T11:00:00+00:00\n\
- Discrepancies: none\n\
\n\
## Contributors\n\
- Tester: 3 commits, last active 2026-04-24T12:00:00+00:00\n\
\n";
    assert_eq!(out, expected);
}

#[test]
fn commit_trigger_omits_commit_metadata_and_contributors() {
    let doc = sample_doc(Trigger::Commit, None);
    let mut out = String::new();
    doc.write(&mut out);
    assert!(out.contains("trigger: commit\n"));
    assert!(!out.contains("## Last Commit"));
    assert!(!out.contains("abc123"));
    assert!(!out.contains("## Contributors"));
    assert!(out.contains("## Activity"));
    assert!(out.contains("## CONTEXT.md"));
}

#[test]
fn push_trigger_records_sha_and_message() {
    let doc = sample_doc(Trigger::Push, None);
    let mut out = String::new();
    doc.write(&mut out);
    assert!(out.contains("- SHA: abc123\n"));
    assert!(out.contains("- Message: Test commit\n"));
}

#[test]
fn activity_without_push_and_drift_discrepancies() {
    let mut doc = sample_doc(Trigger::Scan, None);
    doc.repo.last_push = None;
    doc.repo.days_since_last_push = None;
    doc.repo.days_since_last_commit = -3;
    doc.context_md = ContextMdInfo {
        status: ContextMdStatus::DriftDetected,
        last_modified: None,
        discrepancies: vec!["first".to_string(), "second".to_string()],
        resolved_path: None,
    };
    let mut out = String::new();
    doc.write(&mut out);
    assert!(out.contains("- Last push: never\n- Days since last push: n/a\n- Days since last commit: -3\n"));
    assert!(out.contains(
        "## CONTEXT.md\n- Status: drift_detected\n- Last modified: n/a\n- Discrepancies:\n  - first\n  - second\n\n"
    ));
}

#[test]
fn workflow_section_without_active_sprints() {
    let w = WorkflowWipStatus {
        schema_version: None,
        project_id: None,
        updated_at: None,
        current_sprint: None,
        active_sprint_ids: vec![],
        counts: WorkflowWipCounts { total_sprints: 1, active_sprints: 0, closed_sprints: 1 },
        sprints: vec![SprintWipSummary {
            sprint_id: "S1".to_string(),
            sprint_state: Some("CLOSED".to_string()),
            latest_event_type: None,
            updated_at: None,
            dispatchable: vec![],
            wip_tranches: vec![],
            counts: TrancheCounts::new(),
        }],
    };
    let doc = sample_doc(Trigger::Scan, Some(w));
    let mut out = String::new();
    doc.write(&mut out);
    assert!(out.contains("## Workflow WIP\n- 0 active / 1 total sprints  |  updated unknown\n- No active sprints.\n\n"));
}

#[test]
fn workflow_table_row_counts_and_dashes() {
    let mut s = sprint54();
    s.dispatchable = vec![];
    s.latest_event_type = None;
    s.wip_tranches = vec![];
    s.counts.set("wip", 2);
    s.counts.set("done", 3);
    s.counts.set("total", 5);
    let w = WorkflowWipStatus {
        schema_version: None,
        project_id: None,
        updated_at: Some(at(2026, 4, 24, 12, 30, 0)),
        current_sprint: None,
        active_sprint_ids: vec![],
        counts: WorkflowWipCounts { total_sprints: 1, active_sprints: 1, closed_sprints: 0 },
        sprints: vec![s],
    };
    let doc = sample_doc(Trigger::Scan, Some(w));
    let mut out = String::new();
    doc.write(&mut out);
    assert!(out.contains("updated 2026-04-24 12:30 UTC\n"));
    assert!(out.contains("| Sprint54 | EXECUTING | 2/3/5 | \u{2014} | \u{2014} |\n"));
    assert!(!out.contains("WIP tranches:"));
}

#[test]
fn trigger_and_status_names() {
    assert_eq!(Trigger::Commit.as_str(), "commit");
    assert_eq!(Trigger::Push.as_str(), "push");
    assert_eq!(Trigger::Scan.as_str(), "scan");
    assert_eq!(ContextMdStatus::Okay.as_str(), "ok");
    assert_eq!(ContextMdStatus::DriftDetected.as_str(), "drift_detected");
    assert_eq!(ContextMdStatus::Missing.as_str(), "missing");
}
