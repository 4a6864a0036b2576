use chrono::{TimeZone, Utc};
use rapstat::commands::{check_report, column_width_of, status_age, status_age_label, Outcomes, Tone, ToneLine, TriggerArg};
use rapstat::status_model::{ContextMdInfo, ContextMdStatus, Trigger};
use rapstat::timestamp::Timestamp;

fn at(h: u32) -> Timestamp {
    let t = Utc.with_ymd_and_hms(2026, 4, 24, h, 0, 0).unwrap();
    Timestamp::from_parts(t.timestamp(), t.timestamp_subsec_nanos()).unwrap()
}

fn line(tone: Tone, text: &str) -> ToneLine {
    ToneLine { tone, text: text.to_string() }
}

#[test]
fn trigger_arguments_name_triggers() {
    assert_eq!(TriggerArg::Commit.to_trigger(), Trigger::Commit);
    assert_eq!(TriggerArg::Push.to_trigger(), Trigger::Push);
    assert_eq!(TriggerArg::Scan.to_trigger(), Trigger::Scan);
}

#[test]
fn check_report_when_ok() {
    let info = ContextMdInfo {
        status: ContextMdStatus::Okay,
        last_modified: Some(at(11)),
        discrepancies: vec![],
        resolved_path: Some("CONTEXT.md".to_string()),
    };
    assert_eq!(
        check_report(&info),
        vec![line(Tone::Good, "CONTEXT.md ok"), line(Tone::Plain, "  Last modified: 2026-04-24T11:00:00+00:00")]
    );
    let bare = ContextMdInfo { status: ContextMdStatus::Okay, last_modified: None, discrepancies: vec![], resolved_path: None };
    assert_eq!(check_report(&bare), vec![line(Tone::Good, "CONTEXT.md ok")]);
}

#[test]
fn check_report_lists_discrepancies_on_drift() {
    let info = ContextMdInfo {
        status: ContextMdStatus::DriftDetected,
        last_modified: Some(at(11)),
        discrepancies: vec!["first".to_string(), "second".to_string()],
        resolved_path: None,
    };
    assert_eq!(
        check_report(&info),
        vec![
            line(Tone::Caution, "CONTEXT.md drift detected"),
            line(Tone::Alert, "  first"),
            line(Tone::Alert, "  second"),
        ]
    );
}

#[test]
fn check_report_when_missing() {
    let info = ContextMdInfo { status: ContextMdStatus::Missing, last_modified: None, discrepancies: vec![], resolved_path: None };
    assert_eq!(check_report(&info), vec![line(Tone::Failure, "CONTEXT.md missing and could not be created")]);
}

#[test]
fn status_age_in_minutes_hours_and_days() {
    assert_eq!(status_age_label(0), line(Tone::Good, "  0m ago"));
    assert_eq!(status_age_label(3599), line(Tone::Good, " 59m ago"));
    assert_eq!(status_age_label(3600), line(Tone::Plain, "  1h ago"));
    assert_eq!(status_age_label(86399), line(Tone::Plain, " 23h ago"));
    assert_eq!(status_age_label(86400), line(Tone::Stale, "  1d ago"));
    assert_eq!(status_age_label(86400 * 1234), line(Tone::Stale, "1234d ago"));
}

#[test]
fn column_width_is_the_widest_entry_in_bytes_and_at_least_four() {
    assert_eq!(column_width_of(&vec![]), 4);
    assert_eq!(column_width_of(&vec!["ab".to_string()]), 4);
    assert_eq!(column_width_of(&vec!["abcdef".to_string(), "xyz".to_string()]), 6);
    assert_eq!(column_width_of(&vec!["ééé".to_string()]), 6);
}

#[test]
fn outcomes_count_successes_and_failures() {
    let mut o = Outcomes::new();
    o.record(true);
    o.record(false);
    o.record(true);
    assert_eq!(o, Outcomes { succeeded: 2, failed: 1 });
}

#[test]
fn status_age_when_missing_or_unreadable() {
    assert_eq!(status_age(false, Some(10)), line(Tone::Stale, "missing"));
    assert_eq!(status_age(false, None), line(Tone::Stale, "missing"));
    assert_eq!(status_age(true, None), line(Tone::Faint, "unknown"));
    assert_eq!(status_age(true, Some(7200)), line(Tone::Plain, "  2h ago"));
}
