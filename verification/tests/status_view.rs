use chrono::{TimeZone, Utc};
use rapstat::git::{CommitInfo, RepoInfo};
use rapstat::status_model::{ContextMdInfo, ContextMdStatus, StatusDoc, Trigger};
use rapstat::status_view::{status_display, DisplayLine, LineStyle};
use rapstat::timestamp::Timestamp;

fn at(h: u32) -> Timestamp {
    let t = Utc.with_ymd_and_hms(2026, 4, 24, h, 0, 0).unwrap();
    Timestamp::from_parts(t.timestamp(), t.timestamp_subsec_nanos()).unwrap()
}

fn field(k: &str, v: &str) -> DisplayLine {
    DisplayLine::Field { key: k.to_string(), value: v.to_string() }
}

fn body(style: LineStyle, text: &str) -> DisplayLine {
    DisplayLine::Body { style, text: text.to_string() }
}

#[test]
fn display_of_frontmatter_and_styled_body() {
    let content = "---\nproject: demo\nmachine:  box \nnot a field\nurl: http://x\n---\n\n## CONTEXT.md\n- Status: drift_detected\n- Discrepancies:\n  - stale by a day\n- Path: CONTEXT.md\n  - plain bullet\n- Discrepancies: none\n";
    assert_eq!(
        status_display(content),
        vec![
            DisplayLine::Title,
            field("project", "demo"),
            field("machine", "box"),
            field("url", "http://x"),
            DisplayLine::Blank,
            body(LineStyle::Heading, "## CONTEXT.md"),
            body(LineStyle::Warning, "- Status: drift_detected"),
            body(LineStyle::Warning, "- Discrepancies:"),
            body(LineStyle::Alert, "  - stale by a day"),
            body(LineStyle::Plain, "- Path: CONTEXT.md"),
            body(LineStyle::Plain, "  - plain bullet"),
            body(LineStyle::Plain, "- Discrepancies: none"),
        ]
    );
}

#[test]
fn display_without_delimiters_has_no_fields_or_body() {
    assert_eq!(status_display("just text\n"), vec![DisplayLine::Title, DisplayLine::Blank]);
    assert_eq!(
        status_display("---\nproject: a\n"),
        vec![DisplayLine::Title, field("project", "a"), DisplayLine::Blank]
    );
}

#[test]
fn display_heading_ends_discrepancies_and_missing_warns() {
    let content = "---\n---\n- Discrepancies:\n## Next\n  - not an alert\n- Status: missing\n";
    assert_eq!(
        status_display(content),
        vec![
            DisplayLine::Title,
            DisplayLine::Blank,
            body(LineStyle::Warning, "- Discrepancies:"),
            body(LineStyle::Heading, "## Next"),
            body(LineStyle::Plain, "  - not an alert"),
            body(LineStyle::Warning, "- Status: missing"),
        ]
    );
}

#[test]
fn status_reads_back_what_scan_wrote() {
    let repo = RepoInfo {
        branch: "feature/x".to_string(),
        last_commit: CommitInfo {
            sha: "abc".to_string(),
            message: "m".to_string(),
            author: "a".to_string(),
            timestamp: at(12),
        },
        commits_since_push: 0,
        last_push: None,
        days_since_last_commit: 0,
        days_since_last_push: None,
        contributors: vec![],
    };
    let doc = StatusDoc {
        project: "demo".to_string(),
        machine: "host-1".to_string(),
        trigger: Trigger::Push,
        updated_at: at(13),
        repo,
        context_md: ContextMdInfo {
            status: ContextMdStatus::Okay,
            last_modified: None,
            discrepancies: vec![],
            resolved_path: None,
        },
        workflow_wip: None,
    };
    let mut out = String::new();
    doc.write(&mut out);
    let shown = status_display(&out);
    let fields: Vec<DisplayLine> = shown.into_iter().take_while(|l| *l != DisplayLine::Blank).skip(1).collect();
    assert_eq!(
        fields,
        vec![
            field("rapstat_version", "1.0"),
            field("project", "demo"),
            field("machine", "host-1"),
            field("trigger", "push"),
            field("updated_at", "2026-04-24T13:00:00+00:00"),
            field("branch", "feature/x"),
        ]
    );
}
