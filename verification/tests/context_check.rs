use chrono::{TimeZone, Utc};
use rapstat::context_check::{inspect_times, resolve_context_location, ContextLocation, CONTEXT_MD_STUB};
use rapstat::status_model::ContextMdStatus;
use rapstat::timestamp::Timestamp;

fn at(h: u32, mi: u32) -> Timestamp {
    let t = Utc.with_ymd_and_hms(2026, 4, 24, h, mi, 0).unwrap();
    Timestamp::from_parts(t.timestamp(), t.timestamp_subsec_nanos()).unwrap()
}

#[test]
fn context_location_probe_order() {
    assert_eq!(resolve_context_location(true, true, true), ContextLocation::RaptorExisting);
    assert_eq!(resolve_context_location(true, false, false), ContextLocation::RaptorExisting);
    assert_eq!(resolve_context_location(false, true, true), ContextLocation::RootExisting);
    assert_eq!(resolve_context_location(false, false, true), ContextLocation::RaptorStub);
    assert_eq!(resolve_context_location(false, false, false), ContextLocation::RootStub);
}

#[test]
fn context_location_paths_and_stub_writes() {
    assert_eq!(ContextLocation::RaptorExisting.relative_path(), "raptor/context/CONTEXT.md");
    assert_eq!(ContextLocation::RaptorStub.relative_path(), "raptor/context/CONTEXT.md");
    assert_eq!(ContextLocation::RootExisting.relative_path(), "CONTEXT.md");
    assert_eq!(ContextLocation::RootStub.relative_path(), "CONTEXT.md");
    assert!(!ContextLocation::RaptorExisting.writes_stub());
    assert!(!ContextLocation::RootExisting.writes_stub());
    assert!(ContextLocation::RaptorStub.writes_stub());
    assert!(ContextLocation::RootStub.writes_stub());
    assert!(CONTEXT_MD_STUB.starts_with("# Project Context\n"));
}

#[test]
fn context_older_than_last_commit_is_drift() {
    let info = inspect_times("CONTEXT.md", at(11, 0), &at(12, 0));
    assert!(matches!(info.status, ContextMdStatus::DriftDetected));
    assert_eq!(
        info.discrepancies,
        vec!["CONTEXT.md last modified 2026-04-24T11:00:00+00:00 but last commit was 2026-04-24T12:00:00+00:00".to_string()]
    );
    assert_eq!(info.last_modified, Some(at(11, 0)));
    assert_eq!(info.resolved_path.as_deref(), Some("CONTEXT.md"));
}

#[test]
fn context_touched_at_or_after_last_commit_is_ok() {
    let same = inspect_times("raptor/context/CONTEXT.md", at(12, 0), &at(12, 0));
    assert!(matches!(same.status, ContextMdStatus::Okay));
    assert!(same.discrepancies.is_empty());
    assert_eq!(same.resolved_path.as_deref(), Some("raptor/context/CONTEXT.md"));
    let later = inspect_times("CONTEXT.md", at(13, 5), &at(12, 0));
    assert!(matches!(later.status, ContextMdStatus::Okay));
    assert!(later.discrepancies.is_empty());
}

#[test]
fn drift_discrepancy_names_both_times() {
    assert_eq!(
        rapstat::context_check::drift_discrepancy("2026-01-01T00:00:00+00:00", "2026-02-01T00:00:00+00:00"),
        "CONTEXT.md last modified 2026-01-01T00:00:00+00:00 but last commit was 2026-02-01T00:00:00+00:00"
    );
}

#[test]
fn read_only_probe_never_picks_a_stub() {
    assert_eq!(rapstat::context_check::resolve_existing_context(true, true), Some(ContextLocation::RaptorExisting));
    assert_eq!(rapstat::context_check::resolve_existing_context(true, false), Some(ContextLocation::RaptorExisting));
    assert_eq!(rapstat::context_check::resolve_existing_context(false, true), Some(ContextLocation::RootExisting));
    assert_eq!(rapstat::context_check::resolve_existing_context(false, false), None);
}

#[test]
fn missing_context_findings() {
    let info = rapstat::context_check::missing_context();
    assert!(matches!(info.status, ContextMdStatus::Missing));
    assert_eq!(info.last_modified, None);
    assert!(info.discrepancies.is_empty());
    assert_eq!(info.resolved_path, None);
}
