use chrono::{TimeZone, Utc};
use rapstat::tally::TrancheCounts;
use rapstat::timestamp::Timestamp;
use rapstat::workflow::{
    collect_tranche_counts, SprintWipSummary, WorkflowEventRecord, WorkflowStateFile,
    WorkflowStateTranche, WorkflowWipStatus,
};

fn at(y: i32, mo: u32, d: u32, h: u32, mi: u32, s: u32) -> Timestamp {
    let t = Utc.with_ymd_and_hms(y, mo, d, h, mi, s).unwrap();
    Timestamp::from_parts(t.timestamp(), t.timestamp_subsec_nanos()).unwrap()
}

fn tranche(id: Option<&str>, state: Option<&str>, deps: &[&str]) -> WorkflowStateTranche {
    WorkflowStateTranche {
        id: id.map(|s| s.to_string()),
        state: state.map(|s| s.to_string()),
        depends_on: deps.iter().map(|s| s.to_string()).collect(),
        last_event: None,
    }
}

fn entries(c: &TrancheCounts) -> Vec<(String, usize)> {
    c.entries().clone()
}

fn pairs(v: &[(&str, usize)]) -> Vec<(String, usize)> {
    v.iter().map(|(k, n)| (k.to_string(), *n)).collect()
}

#[test]
fn tranche_counts_of_no_tranches() {
    let c = collect_tranche_counts(&[]);
    assert_eq!(entries(&c), pairs(&[("done", 0), ("total", 0), ("wip", 0)]));
}

#[test]
fn tranche_counts_group_states_case_insensitively() {
    let ts = vec![
        tranche(Some("T1"), Some("DONE"), &[]),
        tranche(Some("T2"), Some("Archived"), &[]),
        tranche(Some("T3"), Some("ACTIVE"), &[]),
        tranche(Some("T4"), None, &[]),
        tranche(Some("T5"), Some("READY"), &[]),
        tranche(Some("T6"), Some("cancelled"), &[]),
    ];
    let c = collect_tranche_counts(&ts);
    assert_eq!(
        entries(&c),
        pairs(&[
            ("active", 1),
            ("archived", 1),
            ("cancelled", 1),
            ("done", 3),
            ("ready", 1),
            ("total", 6),
            ("unknown", 1),
            ("wip", 3),
        ])
    );
    assert_eq!(c.get("done"), Some(3));
    assert_eq!(c.get("blocked"), None);
}

#[test]
fn tranche_counts_partition_total_into_done_and_wip() {
    let ts = vec![
        tranche(Some("A"), Some("DONE"), &[]),
        tranche(Some("B"), Some("BLOCKED"), &[]),
        tranche(Some("C"), Some("ACTIVE"), &[]),
        tranche(Some("D"), Some("CANCELLED"), &[]),
    ];
    let c = collect_tranche_counts(&ts);
    let done = c.get("done").unwrap();
    let wip = c.get("wip").unwrap();
    assert_eq!(c.get("total"), Some(done + wip));
    assert_eq!((done, wip), (2, 2));
}

#[test]
fn tranche_state_named_wip_counts_twice() {
    let ts = vec![tranche(Some("A"), Some("WIP"), &[])];
    let c = collect_tranche_counts(&ts);
    assert_eq!(entries(&c), pairs(&[("done", 0), ("total", 1), ("wip", 2)]));
}

#[test]
fn tranche_counts_table_operations() {
    let mut c = TrancheCounts::new();
    assert_eq!(c.get("x"), None);
    c.set("b", 2);
    c.set("a", 1);
    c.add("b", 5);
    c.add("c", 1);
    assert_eq!(entries(&c), pairs(&[("a", 1), ("b", 7), ("c", 1)]));
    let d = c.duplicate();
    assert_eq!(entries(&d), entries(&c));
}

fn state_file(sprint_id: Option<&str>, events: Vec<Option<&str>>, tranches: Vec<WorkflowStateTranche>) -> WorkflowStateFile {
    WorkflowStateFile {
        sprint_id: sprint_id.map(|s| s.to_string()),
        sprint_state: Some("EXECUTING".to_string()),
        updated_at: Some(at(2026, 4, 24, 12, 30, 0)),
        event_log: Some(events.into_iter().map(|e| WorkflowEventRecord { event_type: e.map(|s| s.to_string()) }).collect()),
        tranches: Some(tranches),
    }
}

#[test]
fn sprint_summary_from_workflow_state() {
    let mut t1 = tranche(Some("S54T1"), Some("ACTIVE"), &["S54T0"]);
    t1.last_event = Some("status_active".to_string());
    let ws = state_file(
        Some("Sprint54"),
        vec![Some("created"), Some("validation_requested")],
        vec![
            tranche(Some("S54T0"), Some("DONE"), &[]),
            t1,
            tranche(Some("S54T2"), Some("READY"), &[]),
            tranche(None, Some("READY"), &[]),
            tranche(Some("S54T3"), None, &[]),
            tranche(Some("S54T4"), Some("done"), &[]),
        ],
    );
    let s = SprintWipSummary::from_workflow_state(Some("dir".to_string()), ws);
    assert_eq!(s.sprint_id, "Sprint54");
    assert_eq!(s.sprint_state.as_deref(), Some("EXECUTING"));
    assert_eq!(s.latest_event_type.as_deref(), Some("validation_requested"));
    assert_eq!(s.updated_at, Some(at(2026, 4, 24, 12, 30, 0)));
    assert_eq!(s.dispatchable, vec!["S54T2".to_string()]);
    let wip: Vec<(String, String, Vec<String>, Option<String>)> = s
        .wip_tranches
        .iter()
        .map(|t| (t.id.clone(), t.state.clone(), t.depends_on.clone(), t.last_event.clone()))
        .collect();
    assert_eq!(
        wip,
        vec![
            ("S54T1".to_string(), "ACTIVE".to_string(), vec!["S54T0".to_string()], Some("status_active".to_string())),
            ("S54T2".to_string(), "READY".to_string(), vec![], None),
            ("S54T3".to_string(), "unknown".to_string(), vec![], None),
            ("S54T4".to_string(), "done".to_string(), vec![], None),
        ]
    );
    assert_eq!(
        entries(&s.counts),
        pairs(&[("active", 1), ("done", 2), ("ready", 2), ("total", 6), ("unknown", 1), ("wip", 4)])
    );
}

#[test]
fn sprint_id_falls_back_to_directory_then_unknown() {
    let a = SprintWipSummary::from_workflow_state(Some("Sprint7".to_string()), state_file(None, vec![], vec![]));
    assert_eq!(a.sprint_id, "Sprint7");
    assert_eq!(a.latest_event_type, None);
    let b = SprintWipSummary::from_workflow_state(None, state_file(None, vec![Some("x"), None], vec![]));
    assert_eq!(b.sprint_id, "unknown");
    assert_eq!(b.latest_event_type, None);
    let empty = WorkflowStateFile { sprint_id: None, sprint_state: None, updated_at: None, event_log: None, tranches: None };
    let c = SprintWipSummary::from_workflow_state(None, empty);
    assert_eq!(c.latest_event_type, None);
    assert!(c.dispatchable.is_empty());
    assert!(c.wip_tranches.is_empty());
    assert_eq!(entries(&c.counts), pairs(&[("done", 0), ("total", 0), ("wip", 0)]));
}

fn sprint(id: &str, state: Option<&str>, updated: Option<Timestamp>) -> SprintWipSummary {
    SprintWipSummary {
        sprint_id: id.to_string(),
        sprint_state: state.map(|s| s.to_string()),
        latest_event_type: None,
        updated_at: updated,
        dispatchable: vec![],
        wip_tranches: vec![],
        counts: TrancheCounts::new(),
    }
}

#[test]
fn workflow_status_from_sprints_sorts_and_counts() {
    let t1 = at(2026, 4, 20, 9, 0, 0);
    let t2 = at(2026, 4, 22, 9, 0, 0);
    let sprints = vec![
        sprint("Sprint2", Some("CLOSED"), Some(t2)),
        sprint("Sprint1", Some("ACTIVE"), Some(t1)),
        sprint("Sprint3", Some("EXECUTING"), None),
    ];
    let st = WorkflowWipStatus::from_sprints(sprints, Some("demo".to_string())).unwrap();
    let ids: Vec<String> = st.sprints.iter().map(|s| s.sprint_id.clone()).collect();
    assert_eq!(ids, vec!["Sprint1", "Sprint2", "Sprint3"]);
    assert_eq!(st.schema_version.as_deref(), Some("2"));
    assert_eq!(st.project_id.as_deref(), Some("demo"));
    assert_eq!(st.updated_at, Some(t2));
    assert_eq!(st.current_sprint.as_ref().unwrap().sprint_id, "Sprint1");
    assert_eq!(st.active_sprint_ids, vec!["Sprint1".to_string(), "Sprint3".to_string()]);
    assert_eq!((st.counts.total_sprints, st.counts.active_sprints, st.counts.closed_sprints), (3, 2, 1));
}

#[test]
fn current_sprint_ties_go_to_the_last_and_all_closed_to_the_first() {
    let st = WorkflowWipStatus::from_sprints(
        vec![sprint("B", None, None), sprint("A", None, None)],
        None,
    )
    .unwrap();
    assert_eq!(st.current_sprint.unwrap().sprint_id, "B");
    assert_eq!(st.updated_at, None);
    assert_eq!(st.project_id, None);

    let closed = WorkflowWipStatus::from_sprints(
        vec![sprint("Z", Some("CLOSED"), None), sprint("Y", Some("CLOSED"), None)],
        Some("p".to_string()),
    )
    .unwrap();
    assert_eq!(closed.current_sprint.unwrap().sprint_id, "Y");
    assert!(closed.active_sprint_ids.is_empty());
    assert_eq!((closed.counts.total_sprints, closed.counts.active_sprints, closed.counts.closed_sprints), (2, 0, 2));
}

#[test]
fn workflow_status_of_no_sprints_is_none() {
    assert!(WorkflowWipStatus::from_sprints(vec![], Some("demo".to_string())).is_none());
}

#[test]
fn tranche_counts_ignore_order_and_letter_case() {
    let a = vec![
        tranche(Some("A"), Some("DONE"), &[]),
        tranche(Some("B"), Some("Blocked"), &[]),
        tranche(Some("C"), None, &[]),
        tranche(Some("D"), Some("archived"), &[]),
    ];
    let reordered = vec![
        tranche(Some("D"), Some("archived"), &[]),
        tranche(Some("C"), None, &[]),
        tranche(Some("A"), Some("DONE"), &[]),
        tranche(Some("B"), Some("Blocked"), &[]),
    ];
    let recased = vec![
        tranche(Some("A"), Some("done"), &[]),
        tranche(Some("B"), Some("BLOCKED"), &[]),
        tranche(Some("C"), None, &[]),
        tranche(Some("D"), Some("ArChIvEd"), &[]),
    ];
    let base = entries(&collect_tranche_counts(&a));
    assert_eq!(entries(&collect_tranche_counts(&reordered)), base);
    assert_eq!(entries(&collect_tranche_counts(&recased)), base);
}
