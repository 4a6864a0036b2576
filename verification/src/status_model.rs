//! The STATUS.md document: its model, and the text it is written as
//! (YAML frontmatter, then a Markdown body).
use vstd::prelude::*;
use crate::git::{CommitInfo, ContributorInfo, RepoInfo};
use crate::tally::lookup;
use crate::text::{
    concat, decimal, i64_text, join, join_strings, opt_text, push_str, signed_decimal, texts,
    usize_text,
};
use crate::timestamp::{minute_format, rfc3339_text, utc_format_text, Timestamp};
use crate::workflow::{is_active, SprintWipSummary, TrancheWipSummary, WorkflowWipStatus};

verus! {

/// The version of the STATUS.md format.
pub const RAPSTAT_VERSION: &'static str = "1.0";

/// What started a scan.
#[derive(Clone, Copy, Debug, PartialEq, Eq)]
pub enum Trigger {
    /// Called from the pre-commit hook. The current commit does not exist yet.
    Commit,
    /// Called from the pre-push hook. Full commit metadata is available.
    Push,
    /// Manual invocation or cron. Equivalent to push-level data.
    Scan,
}

/// The name of a trigger in STATUS.md.
pub open spec fn trigger_text(t: Trigger) -> Seq<char> {
    match t {
        Trigger::Commit => "commit"@,
        Trigger::Push => "push"@,
        Trigger::Scan => "scan"@,
    }
}

impl Trigger {
    /// The name of the trigger: `commit`, `push` or `scan`.
    pub fn as_str(&self) -> (r: &'static str)
        ensures
            r@ == trigger_text(*self),
    {
        match self {
            Trigger::Commit => "commit",
            Trigger::Push => "push",
            Trigger::Scan => "scan",
        }
    }

    /// Whether this is the pre-commit trigger.
    pub fn is_commit(&self) -> (r: bool)
        ensures
            r == (*self == Trigger::Commit),
    {
        match self {
            Trigger::Commit => true,
            _ => false,
        }
    }
}

/// What the inspection of CONTEXT.md found.
#[derive(Clone, Copy, Debug, PartialEq, Eq)]
pub enum ContextMdStatus {
    Okay,
    DriftDetected,
    Missing,
}

/// The name of a CONTEXT.md status in STATUS.md.
pub open spec fn context_status_text(s: ContextMdStatus) -> Seq<char> {
    match s {
        ContextMdStatus::Okay => "ok"@,
        ContextMdStatus::DriftDetected => "drift_detected"@,
        ContextMdStatus::Missing => "missing"@,
    }
}

impl ContextMdStatus {
    /// The name of the status: `ok`, `drift_detected` or `missing`.
    pub fn as_str(&self) -> (r: &'static str)
        ensures
            r@ == context_status_text(*self),
    {
        match self {
            ContextMdStatus::Okay => "ok",
            ContextMdStatus::DriftDetected => "drift_detected",
            ContextMdStatus::Missing => "missing",
        }
    }
}

/// The findings about CONTEXT.md.
#[derive(Debug, PartialEq, Eq)]
pub struct ContextMdInfo {
    pub status: ContextMdStatus,
    pub last_modified: Option<Timestamp>,
    pub discrepancies: Vec<String>,
    /// Relative path used: "CONTEXT.md" or "raptor/context/CONTEXT.md"
    pub resolved_path: Option<String>,
}

/// Everything that one STATUS.md records.
#[derive(Debug, PartialEq, Eq)]
pub struct StatusDoc {
    pub project: String,
    pub machine: String,
    pub trigger: Trigger,
    pub updated_at: Timestamp,
    pub repo: RepoInfo,
    pub context_md: ContextMdInfo,
    pub workflow_wip: Option<WorkflowWipStatus>,
}

/// RFC 3339 text of an instant.
pub open spec fn rfc(t: Timestamp) -> Seq<char> {
    rfc3339_text(t@.0, t@.1)
}

// ---------------------------------------------------------------------------
// The text of each part

/// The YAML frontmatter.
pub open spec fn frontmatter_text(d: StatusDoc) -> Seq<char> {
    "---\n"@ + "rapstat_version: "@ + RAPSTAT_VERSION@ + "\n"@ + "project: "@ + d.project@ + "\n"@
        + "machine: "@ + d.machine@ + "\n"@ + "trigger: "@ + trigger_text(d.trigger) + "\n"@
        + "updated_at: "@ + rfc(d.updated_at) + "\n"@ + "branch: "@ + d.repo.branch@ + "\n"@
        + "---\n"@
}

/// The "Last Commit" section.
pub open spec fn last_commit_text(c: CommitInfo) -> Seq<char> {
    "## Last Commit\n"@ + "- SHA: "@ + c.sha@ + "\n"@ + "- Message: "@ + c.message@ + "\n"@
        + "- Author: "@ + c.author@ + "\n"@ + "- Timestamp: "@ + rfc(c.timestamp) + "\n"@ + "\n"@
}

/// The line of the last push.
pub open spec fn last_push_line(r: RepoInfo) -> Seq<char> {
    match r.last_push {
        Some(t) => "- Last push: "@ + rfc(t) + "\n"@,
        None => "- Last push: never\n"@,
    }
}

/// The line of the days since the last push.
pub open spec fn push_days_line(r: RepoInfo) -> Seq<char> {
    match r.days_since_last_push {
        Some(d) => "- Days since last push: "@ + signed_decimal(d as int) + "\n"@,
        None => "- Days since last push: n/a\n"@,
    }
}

/// The "Activity" section.
#[verifier::opaque]
pub open spec fn activity_text(r: RepoInfo) -> Seq<char> {
    "## Activity\n"@ + "- Commits since last push: "@ + decimal(r.commits_since_push as nat)
        + "\n"@ + last_push_line(r) + push_days_line(r) + "- Days since last commit: "@
        + signed_decimal(r.days_since_last_commit as int) + "\n"@ + "\n"@
}

/// One bullet per discrepancy.
pub open spec fn discrepancy_lines(ds: Seq<Seq<char>>) -> Seq<char> {
    concat(ds.map_values(|d: Seq<char>| "  - "@ + d + "\n"@))
}

/// The heading, status, path and modification time of the "CONTEXT.md" section.
pub open spec fn context_head(c: ContextMdInfo) -> Seq<char> {
    "## CONTEXT.md\n"@ + "- Status: "@ + context_status_text(c.status) + "\n"@ + (match c.resolved_path {
        Some(p) => "- Path: "@ + p@ + "\n"@,
        None => seq![],
    }) + (match c.last_modified {
        Some(t) => "- Last modified: "@ + rfc(t) + "\n"@,
        None => "- Last modified: n/a\n"@,
    })
}

/// The discrepancies of the "CONTEXT.md" section: `none`, or one bullet each.
pub open spec fn context_discrepancies(c: ContextMdInfo) -> Seq<char> {
    if c.discrepancies@.len() == 0 {
        "- Discrepancies: none\n"@
    } else {
        "- Discrepancies:\n"@ + discrepancy_lines(texts(c.discrepancies@))
    }
}

/// The "CONTEXT.md" section.
#[verifier::opaque]
pub open spec fn context_text(c: ContextMdInfo) -> Seq<char> {
    context_head(c) + context_discrepancies(c) + "\n"@
}

/// The line of one contributor.
pub open spec fn contributor_line(c: ContributorInfo) -> Seq<char> {
    "- "@ + c.name@ + ": "@ + decimal(c.commit_count as nat) + " commits, last active "@ + rfc(
        c.last_active,
    ) + "\n"@
}

/// The "Contributors" section.
#[verifier::opaque]
pub open spec fn contributors_text(cs: Seq<ContributorInfo>) -> Seq<char> {
    "## Contributors\n"@ + concat(cs.map_values(|c: ContributorInfo| contributor_line(c))) + "\n"@
}

/// The sprints that are not closed, in order.
pub open spec fn active_sprints(s: Seq<SprintWipSummary>) -> Seq<SprintWipSummary>
    decreases s.len(),
{
    if s.len() == 0 {
        seq![]
    } else {
        active_sprints(s.drop_last()) + if is_active(s.last()) {
            seq![s.last()]
        } else {
            seq![]
        }
    }
}

/// A count of a sprint's tally, zero when it has none.
pub open spec fn count_or_zero(x: SprintWipSummary, k: Seq<char>) -> nat {
    match lookup(x.counts@, k) {
        Some(v) => v as nat,
        None => 0,
    }
}

/// An optional text, or `fallback`.
pub open spec fn text_or(o: Option<String>, fallback: Seq<char>) -> Seq<char> {
    match o {
        Some(s) => s@,
        None => fallback,
    }
}

/// The start of a sprint's table row: its id and state.
pub open spec fn row_lead(x: SprintWipSummary) -> Seq<char> {
    "| "@ + x.sprint_id@ + " | "@ + text_or(x.sprint_state, "?"@) + " | "@
}

/// The tranche counts of a sprint's table row: wip/done/total.
pub open spec fn row_counts(x: SprintWipSummary) -> Seq<char> {
    decimal(count_or_zero(x, "wip"@)) + "/"@ + decimal(count_or_zero(x, "done"@)) + "/"@ + decimal(
        count_or_zero(x, "total"@),
    ) + " | "@
}

/// The end of a sprint's table row: dispatchable tranches and the latest event.
pub open spec fn row_trail(x: SprintWipSummary) -> Seq<char> {
    (if x.dispatchable@.len() == 0 {
        "\u{2014}"@
    } else {
        join(texts(x.dispatchable@), ", "@)
    }) + " | "@ + text_or(x.latest_event_type, "\u{2014}"@) + " |"@ + "\n"@
}

/// The table row of an active sprint.
pub open spec fn sprint_row(x: SprintWipSummary) -> Seq<char> {
    row_lead(x) + row_counts(x) + row_trail(x)
}

/// The line of an unfinished tranche of a sprint.
pub open spec fn tranche_line(sprint_id: Seq<char>, t: TrancheWipSummary) -> Seq<char> {
    "  "@ + sprint_id + "/"@ + t.id@ + " ("@ + t.state@ + ")"@ + (if t.depends_on@.len() == 0 {
        seq![]
    } else {
        " \u{2190} "@ + join(texts(t.depends_on@), ", "@)
    }) + "\n"@
}

/// The lines of the unfinished tranches of a sprint.
pub open spec fn sprint_tranche_lines(x: SprintWipSummary) -> Seq<char> {
    concat(x.wip_tranches@.map_values(|t: TrancheWipSummary| tranche_line(x.sprint_id@, t)))
}

/// Some sprint has unfinished tranches.
pub open spec fn any_wip(s: Seq<SprintWipSummary>) -> bool {
    exists|i: int| 0 <= i < s.len() && s[i].wip_tranches@.len() > 0
}

/// The time of the last update, or `unknown`.
pub open spec fn updated_text(w: WorkflowWipStatus) -> Seq<char> {
    match w.updated_at {
        Some(t) => utc_format_text(t@.0, t@.1, minute_format()),
        None => "unknown"@,
    }
}

/// The heading and summary line of the "Workflow WIP" section.
pub open spec fn wip_head(w: WorkflowWipStatus) -> Seq<char> {
    "## Workflow WIP\n"@ + "- "@ + decimal(w.counts.active_sprints as nat) + " active / "@
        + decimal(w.counts.total_sprints as nat) + " total sprints  |  updated "@ + updated_text(w)
        + "\n"@
}

/// The table of the active sprints.
pub open spec fn wip_table(active: Seq<SprintWipSummary>) -> Seq<char> {
    "\n"@ + "| Sprint | State | Tranches (wip/done/total) | Dispatchable | Latest event |\n"@
        + "|--------|-------|---------------------------|--------------|--------------|\n"@
        + concat(active.map_values(|x: SprintWipSummary| sprint_row(x))) + "\n"@
}

/// The list of unfinished tranches of the active sprints, when there are any.
pub open spec fn wip_detail(active: Seq<SprintWipSummary>) -> Seq<char> {
    if any_wip(active) {
        "WIP tranches:\n"@ + concat(active.map_values(|x: SprintWipSummary| sprint_tranche_lines(x)))
            + "\n"@
    } else {
        seq![]
    }
}

/// The "Workflow WIP" section of a project's workflow progress.
pub open spec fn wip_section_text(w: WorkflowWipStatus) -> Seq<char> {
    let active = active_sprints(w.sprints@);
    wip_head(w) + if active.len() == 0 {
        "- No active sprints.\n"@ + "\n"@
    } else {
        wip_table(active) + wip_detail(active)
    }
}

/// The "Workflow WIP" section, when there is workflow progress to show.
#[verifier::opaque]
pub open spec fn wip_text(w: Option<WorkflowWipStatus>) -> Seq<char> {
    match w {
        Some(w) => wip_section_text(w),
        None => seq![],
    }
}

/// The Markdown body. The pre-commit tier has no Last Commit and no
/// Contributors section: the commit does not exist yet.
pub open spec fn body_text(d: StatusDoc) -> Seq<char> {
    (if d.trigger != Trigger::Commit {
        last_commit_text(d.repo.last_commit)
    } else {
        seq![]
    }) + activity_text(d.repo) + wip_text(d.workflow_wip) + context_text(d.context_md) + (if d.trigger
        != Trigger::Commit {
        contributors_text(d.repo.contributors@)
    } else {
        seq![]
    })
}

/// The whole STATUS.md text: frontmatter, a blank line, the body.
pub open spec fn status_text(d: StatusDoc) -> Seq<char> {
    frontmatter_text(d) + "\n"@ + body_text(d)
}


// ---------------------------------------------------------------------------
// Writing

fn write_frontmatter(d: &StatusDoc, out: &mut String)
    ensures
        final(out)@ == old(out)@ + frontmatter_text(*d),
{
    let ghost start = out@;
    push_str(out, "---\n");
    push_str(out, "rapstat_version: ");
    push_str(out, RAPSTAT_VERSION);
    push_str(out, "\n");
    push_str(out, "project: ");
    push_str(out, d.project.as_str());
    push_str(out, "\n");
    push_str(out, "machine: ");
    push_str(out, d.machine.as_str());
    push_str(out, "\n");
    push_str(out, "trigger: ");
    push_str(out, d.trigger.as_str());
    push_str(out, "\n");
    push_str(out, "updated_at: ");
    let t = d.updated_at.to_rfc3339();
    push_str(out, t.as_str());
    push_str(out, "\n");
    push_str(out, "branch: ");
    push_str(out, d.repo.branch.as_str());
    push_str(out, "\n");
    push_str(out, "---\n");
    assert(out@ =~= start + frontmatter_text(*d));
}

fn write_last_commit_section(c: &CommitInfo, out: &mut String)
    ensures
        final(out)@ == old(out)@ + last_commit_text(*c),
{
    let ghost start = out@;
    push_str(out, "## Last Commit\n");
    push_str(out, "- SHA: ");
    push_str(out, c.sha.as_str());
    push_str(out, "\n");
    push_str(out, "- Message: ");
    push_str(out, c.message.as_str());
    push_str(out, "\n");
    push_str(out, "- Author: ");
    push_str(out, c.author.as_str());
    push_str(out, "\n");
    push_str(out, "- Timestamp: ");
    let t = c.timestamp.to_rfc3339();
    push_str(out, t.as_str());
    push_str(out, "\n");
    push_str(out, "\n");
    assert(out@ =~= start + last_commit_text(*c));
}

fn write_activity_section(r: &RepoInfo, out: &mut String)
    ensures
        final(out)@ == old(out)@ + activity_text(*r),
{
    reveal(activity_text);
    let ghost start = out@;
    push_str(out, "## Activity\n");
    push_str(out, "- Commits since last push: ");
    let n = usize_text(r.commits_since_push);
    push_str(out, n.as_str());
    push_str(out, "\n");
    let ghost mid = out@;
    assert(mid =~= start + ("## Activity\n"@ + "- Commits since last push: "@ + decimal(
        r.commits_since_push as nat,
    ) + "\n"@));
    match &r.last_push {
        Some(t) => {
            push_str(out, "- Last push: ");
            let tt = t.to_rfc3339();
            push_str(out, tt.as_str());
            push_str(out, "\n");
        },
        None => {
            push_str(out, "- Last push: never\n");
        },
    }
    let ghost mid2 = out@;
    assert(mid2 =~= mid + last_push_line(*r));
    match r.days_since_last_push {
        Some(d) => {
            push_str(out, "- Days since last push: ");
            let dt = i64_text(d);
            push_str(out, dt.as_str());
            push_str(out, "\n");
        },
        None => {
            push_str(out, "- Days since last push: n/a\n");
        },
    }
    let ghost mid3 = out@;
    assert(mid3 =~= mid2 + push_days_line(*r));
    push_str(out, "- Days since last commit: ");
    let dc = i64_text(r.days_since_last_commit);
    push_str(out, dc.as_str());
    push_str(out, "\n");
    push_str(out, "\n");
    assert(out@ =~= start + activity_text(*r));
}

fn write_discrepancy_lines(v: &Vec<String>, out: &mut String)
    ensures
        final(out)@ == old(out)@ + discrepancy_lines(texts(v@)),
{
    let ghost ds = texts(v@);
    let ghost lines_start = out@;
    let ghost f = |d: Seq<char>| "  - "@ + d + "\n"@;
    let mut i: usize = 0;
    assert(ds.take(0).map_values(f) =~= Seq::<Seq<char>>::empty());
    while i < v.len()
        invariant
            i <= v.len(),
            ds == texts(v@),
            f == (|d: Seq<char>| "  - "@ + d + "\n"@),
            out@ == lines_start + concat(ds.take(i as int).map_values(f)),
        decreases v.len() - i,
    {
        let ghost before = out@;
        push_str(out, "  - ");
        push_str(out, v[i].as_str());
        push_str(out, "\n");
        proof {
            assert(out@ =~= before + f(ds[i as int]));
            assert(ds.take(i + 1).map_values(f).drop_last() =~= ds.take(i as int).map_values(f));
            assert(ds.take(i + 1).map_values(f).last() == f(ds[i as int]));
        }
        i = i + 1;
    }
    assert(ds.take(i as int) =~= ds);
}

fn write_context_md_section(c: &ContextMdInfo, out: &mut String)
    ensures
        final(out)@ == old(out)@ + context_text(*c),
{
    reveal(context_text);
    let ghost start = out@;
    push_str(out, "## CONTEXT.md\n");
    push_str(out, "- Status: ");
    push_str(out, c.status.as_str());
    push_str(out, "\n");
    match &c.resolved_path {
        Some(p) => {
            push_str(out, "- Path: ");
            push_str(out, p.as_str());
            push_str(out, "\n");
        },
        None => {},
    }
    match &c.last_modified {
        Some(t) => {
            push_str(out, "- Last modified: ");
            let tt = t.to_rfc3339();
            push_str(out, tt.as_str());
            push_str(out, "\n");
        },
        None => {
            push_str(out, "- Last modified: n/a\n");
        },
    }
    assert(out@ =~= start + context_head(*c));
    let ghost before_d = out@;
    if c.discrepancies.len() == 0 {
        push_str(out, "- Discrepancies: none\n");
    } else {
        push_str(out, "- Discrepancies:\n");
        write_discrepancy_lines(&c.discrepancies, out);
    }
    assert(out@ =~= before_d + context_discrepancies(*c));
    push_str(out, "\n");
    assert(out@ =~= start + context_text(*c));
}

fn write_contributors_section(cs: &Vec<ContributorInfo>, out: &mut String)
    ensures
        final(out)@ == old(out)@ + contributors_text(cs@),
{
    reveal(contributors_text);
    let ghost start = out@;
    push_str(out, "## Contributors\n");
    let ghost lines_start = out@;
    let mut i: usize = 0;
    assert(cs@.take(0).map_values(|c: ContributorInfo| contributor_line(c)) =~= Seq::<
        Seq<char>,
    >::empty());
    while i < cs.len()
        invariant
            i <= cs.len(),
            out@ == lines_start + concat(
                cs@.take(i as int).map_values(|c: ContributorInfo| contributor_line(c)),
            ),
        decreases cs.len() - i,
    {
        let c = &cs[i];
        let ghost before = out@;
        push_str(out, "- ");
        push_str(out, c.name.as_str());
        push_str(out, ": ");
        let n = usize_text(c.commit_count);
        push_str(out, n.as_str());
        push_str(out, " commits, last active ");
        let t = c.last_active.to_rfc3339();
        push_str(out, t.as_str());
        push_str(out, "\n");
        proof {
            let f = |c: ContributorInfo| contributor_line(c);
            assert(out@ =~= before + contributor_line(*c));
            assert(cs@.take(i + 1).map_values(f).drop_last() =~= cs@.take(i as int).map_values(f));
            assert(cs@.take(i + 1).map_values(f).last() == f(cs@[i as int]));
        }
        i = i + 1;
    }
    assert(cs@.take(i as int) =~= cs@);
    push_str(out, "\n");
    assert(out@ =~= start + contributors_text(cs@));
}

/// The positions of the active sprints.
fn active_positions(s: &Vec<SprintWipSummary>) -> (r: Vec<usize>)
    ensures
        forall|j: int| 0 <= j < r@.len() ==> r@[j] < s@.len(),
        r@.map_values(|i: usize| s@[i as int]) == active_sprints(s@),
{
    let mut r: Vec<usize> = Vec::new();
    let mut k: usize = 0;
    assert(s@.take(0) =~= Seq::<SprintWipSummary>::empty());
    while k < s.len()
        invariant
            k <= s.len(),
            forall|j: int| 0 <= j < r@.len() ==> r@[j] < k,
            r@.map_values(|i: usize| s@[i as int]) == active_sprints(s@.take(k as int)),
        decreases s.len() - k,
    {
        let ghost before = r@;
        proof {
            assert(s@.take(k + 1).drop_last() =~= s@.take(k as int));
            assert(s@.take(k + 1).last() == s@[k as int]);
        }
        let closed = match &s[k].sprint_state {
            Some(st) => crate::text::str_eq(st.as_str(), "CLOSED"),
            None => false,
        };
        if !closed {
            r.push(k);
            assert(r@.map_values(|i: usize| s@[i as int]) =~= before.map_values(
                |i: usize| s@[i as int],
            ).push(s@[k as int]));
        } else {
            assert(before.map_values(|i: usize| s@[i as int]) + seq![] =~= before.map_values(
                |i: usize| s@[i as int],
            ));
        }
        k = k + 1;
    }
    assert(s@.take(k as int) =~= s@);
    r
}

#[verifier::rlimit(60)]
fn write_sprint_row(x: &SprintWipSummary, out: &mut String)
    ensures
        final(out)@ == old(out)@ + sprint_row(*x),
{
    let ghost start = out@;
    push_str(out, "| ");
    push_str(out, x.sprint_id.as_str());
    push_str(out, " | ");
    match &x.sprint_state {
        Some(st) => push_str(out, st.as_str()),
        None => push_str(out, "?"),
    }
    push_str(out, " | ");
    assert(out@ =~= start + row_lead(*x));
    let ghost after_lead = out@;
    let wip = match x.counts.get("wip") {
        Some(v) => v,
        None => 0,
    };
    let done = match x.counts.get("done") {
        Some(v) => v,
        None => 0,
    };
    let total = match x.counts.get("total") {
        Some(v) => v,
        None => 0,
    };
    let t = usize_text(wip);
    push_str(out, t.as_str());
    push_str(out, "/");
    let t = usize_text(done);
    push_str(out, t.as_str());
    push_str(out, "/");
    let t = usize_text(total);
    push_str(out, t.as_str());
    push_str(out, " | ");
    assert(out@ =~= after_lead + row_counts(*x));
    let ghost after_counts = out@;
    if x.dispatchable.len() == 0 {
        push_str(out, "\u{2014}");
    } else {
        let j = join_strings(&x.dispatchable, ", ");
        push_str(out, j.as_str());
    }
    push_str(out, " | ");
    match &x.latest_event_type {
        Some(e) => push_str(out, e.as_str()),
        None => push_str(out, "\u{2014}"),
    }
    push_str(out, " |");
    push_str(out, "\n");
    assert(out@ =~= after_counts + row_trail(*x));
    assert(out@ =~= start + sprint_row(*x));
}

fn write_sprint_tranches(x: &SprintWipSummary, out: &mut String)
    ensures
        final(out)@ == old(out)@ + sprint_tranche_lines(*x),
{
    let ghost start = out@;
    let ghost f = |t: TrancheWipSummary| tranche_line(x.sprint_id@, t);
    let mut i: usize = 0;
    assert(x.wip_tranches@.take(0).map_values(f) =~= Seq::<Seq<char>>::empty());
    while i < x.wip_tranches.len()
        invariant
            i <= x.wip_tranches.len(),
            f == (|t: TrancheWipSummary| tranche_line(x.sprint_id@, t)),
            out@ == start + concat(x.wip_tranches@.take(i as int).map_values(f)),
        decreases x.wip_tranches.len() - i,
    {
        let t = &x.wip_tranches[i];
        let ghost before = out@;
        push_str(out, "  ");
        push_str(out, x.sprint_id.as_str());
        push_str(out, "/");
        push_str(out, t.id.as_str());
        push_str(out, " (");
        push_str(out, t.state.as_str());
        push_str(out, ")");
        if t.depends_on.len() > 0 {
            push_str(out, " \u{2190} ");
            let j = join_strings(&t.depends_on, ", ");
            push_str(out, j.as_str());
        }
        push_str(out, "\n");
        proof {
            assert(out@ =~= before + tranche_line(x.sprint_id@, *t));
            assert(x.wip_tranches@.take(i + 1).map_values(f).drop_last() =~= x.wip_tranches@.take(
                i as int,
            ).map_values(f));
            assert(x.wip_tranches@.take(i + 1).map_values(f).last() == f(*t));
        }
        i = i + 1;
    }
    assert(x.wip_tranches@.take(i as int) =~= x.wip_tranches@);
}

#[verifier::rlimit(60)]
fn write_wip_status(w: &WorkflowWipStatus, out: &mut String)
    ensures
        final(out)@ == old(out)@ + wip_section_text(*w),
{
    let ghost start = out@;
    push_str(out, "## Workflow WIP\n");
    push_str(out, "- ");
    let t = usize_text(w.counts.active_sprints);
    push_str(out, t.as_str());
    push_str(out, " active / ");
    let t = usize_text(w.counts.total_sprints);
    push_str(out, t.as_str());
    push_str(out, " total sprints  |  updated ");
    match &w.updated_at {
        Some(u) => {
            let t = u.to_minute_text();
            push_str(out, t.as_str());
        },
        None => push_str(out, "unknown"),
    }
    push_str(out, "\n");
    assert(out@ =~= start + wip_head(*w));
    let ghost head = out@;
    let pos = active_positions(&w.sprints);
    let ghost active = active_sprints(w.sprints@);
    assert(pos@.len() == active.len());
    if pos.len() == 0 {
        push_str(out, "- No active sprints.\n");
        push_str(out, "\n");
        assert(out@ =~= head + ("- No active sprints.\n"@ + "\n"@));
        assert(out@ =~= start + wip_section_text(*w));
        return;
    }
    push_str(out, "\n");
    push_str(out, "| Sprint | State | Tranches (wip/done/total) | Dispatchable | Latest event |\n");
    push_str(out, "|--------|-------|---------------------------|--------------|--------------|\n");
    let ghost rows_start = out@;
    let ghost fr = |x: SprintWipSummary| sprint_row(x);
    let mut i: usize = 0;
    assert(active.take(0).map_values(fr) =~= Seq::<Seq<char>>::empty());
    while i < pos.len()
        invariant
            i <= pos.len(),
            pos@.len() == active.len(),
            forall|j: int| 0 <= j < pos@.len() ==> pos@[j] < w.sprints@.len(),
            pos@.map_values(|k: usize| w.sprints@[k as int]) == active,
            fr == (|x: SprintWipSummary| sprint_row(x)),
            out@ == rows_start + concat(active.take(i as int).map_values(fr)),
        decreases pos.len() - i,
    {
        let x = &w.sprints[pos[i]];
        proof {
            assert(active[i as int] == *x);
            assert(active.take(i + 1).map_values(fr).drop_last() =~= active.take(
                i as int,
            ).map_values(fr));
            assert(active.take(i + 1).map_values(fr).last() == fr(*x));
        }
        write_sprint_row(x, out);
        i = i + 1;
    }
    assert(active.take(i as int) =~= active);
    push_str(out, "\n");
    assert(out@ =~= head + wip_table(active));
    let ghost detail_start = out@;
    let mut any = false;
    let mut i: usize = 0;
    while i < pos.len()
        invariant
            i <= pos.len(),
            pos@.len() == active.len(),
            forall|j: int| 0 <= j < pos@.len() ==> pos@[j] < w.sprints@.len(),
            pos@.map_values(|k: usize| w.sprints@[k as int]) == active,
            any == exists|j: int| 0 <= j < i && active[j].wip_tranches@.len() > 0,
        decreases pos.len() - i,
    {
        let x = &w.sprints[pos[i]];
        proof {
            assert(active[i as int] == *x);
        }
        if x.wip_tranches.len() > 0 {
            any = true;
        }
        i = i + 1;
    }
    if any {
        push_str(out, "WIP tranches:\n");
        let ghost lines_start = out@;
        let ghost ft = |x: SprintWipSummary| sprint_tranche_lines(x);
        let mut i: usize = 0;
        assert(active.take(0).map_values(ft) =~= Seq::<Seq<char>>::empty());
        while i < pos.len()
            invariant
                i <= pos.len(),
                pos@.len() == active.len(),
                forall|j: int| 0 <= j < pos@.len() ==> pos@[j] < w.sprints@.len(),
                pos@.map_values(|k: usize| w.sprints@[k as int]) == active,
                ft == (|x: SprintWipSummary| sprint_tranche_lines(x)),
                out@ == lines_start + concat(active.take(i as int).map_values(ft)),
            decreases pos.len() - i,
        {
            let x = &w.sprints[pos[i]];
            proof {
                assert(active[i as int] == *x);
                assert(active.take(i + 1).map_values(ft).drop_last() =~= active.take(
                    i as int,
                ).map_values(ft));
                assert(active.take(i + 1).map_values(ft).last() == ft(*x));
            }
            write_sprint_tranches(x, out);
            i = i + 1;
        }
        assert(active.take(i as int) =~= active);
        push_str(out, "\n");
    }
    assert(out@ =~= detail_start + wip_detail(active));
    assert(out@ =~= start + wip_section_text(*w));
}

fn write_workflow_wip_section(w: &Option<WorkflowWipStatus>, out: &mut String)
    ensures
        final(out)@ == old(out)@ + wip_text(*w),
{
    reveal(wip_text);
    match w {
        Some(w) => write_wip_status(w, out),
        None => {
            assert(out@ + seq![] =~= out@);
        },
    }
}

impl StatusDoc {
    /// Writes the STATUS.md text of the document: YAML frontmatter, a blank
    /// line, then the Markdown body.
    #[verifier::rlimit(60)]
    pub fn write(&self, out: &mut String)
        ensures
            final(out)@ == old(out)@ + status_text(*self),
    {
        let ghost start = out@;
        write_frontmatter(self, out);
        push_str(out, "\n");
        let ghost body_start = out@;
        let commit = self.trigger.is_commit();
        if !commit {
            write_last_commit_section(&self.repo.last_commit, out);
        }
        write_activity_section(&self.repo, out);
        write_workflow_wip_section(&self.workflow_wip, out);
        write_context_md_section(&self.context_md, out);
        if !commit {
            write_contributors_section(&self.repo.contributors, out);
        }
        assert(out@ =~= start + status_text(*self));
    }
}


// ---------------------------------------------------------------------------
// Laws of the document

/// The pre-commit tier of STATUS.md does not depend on the last commit (SHA,
/// message, author, time) nor on the contributors: at pre-commit time the
/// commit does not exist yet, so two documents that differ only there are
/// written identically.
pub proof fn lemma_commit_tier_ignores_commit_metadata(d1: StatusDoc, d2: StatusDoc)
    requires
        d1.trigger == Trigger::Commit,
        d2.trigger == Trigger::Commit,
        d1.project == d2.project,
        d1.machine == d2.machine,
        d1.updated_at == d2.updated_at,
        d1.repo.branch == d2.repo.branch,
        d1.repo.commits_since_push == d2.repo.commits_since_push,
        d1.repo.last_push == d2.repo.last_push,
        d1.repo.days_since_last_commit == d2.repo.days_since_last_commit,
        d1.repo.days_since_last_push == d2.repo.days_since_last_push,
        d1.context_md == d2.context_md,
        d1.workflow_wip == d2.workflow_wip,
    ensures
        status_text(d1) == status_text(d2),
{
    reveal(activity_text);
    assert(frontmatter_text(d1) == frontmatter_text(d2));
    assert(activity_text(d1.repo) == activity_text(d2.repo));
}

/// `x` occurs in `p + x + q` right after `p`.
pub proof fn lemma_occurs_in_middle(p: Seq<char>, x: Seq<char>, q: Seq<char>)
    ensures
        crate::text::occurs_at(p + x + q, x, p.len() as int),
        crate::text::contains(p + x + q, x),
{
    assert((p + x + q).subrange(p.len() as int, (p.len() + x.len()) as int) =~= x);
}

/// The pre-push and scan tiers record the last commit's SHA and message.
pub proof fn lemma_push_tier_records_commit(d: StatusDoc)
    requires
        d.trigger != Trigger::Commit,
    ensures
        crate::text::contains(status_text(d), "- SHA: "@ + d.repo.last_commit.sha@ + "\n"@),
        crate::text::contains(status_text(d), "- Message: "@ + d.repo.last_commit.message@ + "\n"@),
{
    let c = d.repo.last_commit;
    let head = frontmatter_text(d) + "\n"@;
    let rest = activity_text(d.repo) + wip_text(d.workflow_wip) + context_text(d.context_md)
        + contributors_text(d.repo.contributors@);
    let sha = "- SHA: "@ + c.sha@ + "\n"@;
    let msg = "- Message: "@ + c.message@ + "\n"@;
    let tail = "- Author: "@ + c.author@ + "\n"@ + "- Timestamp: "@ + rfc(c.timestamp) + "\n"@
        + "\n"@;
    assert(last_commit_text(c) =~= "## Last Commit\n"@ + sha + msg + tail);
    assert(body_text(d) =~= last_commit_text(c) + rest);
    assert(status_text(d) == head + body_text(d));
    let a = head + "## Last Commit\n"@;
    assert(status_text(d) =~= a + sha + (msg + (tail + rest)));
    lemma_occurs_in_middle(a, sha, msg + (tail + rest));
    assert(status_text(d) =~= (a + sha) + msg + (tail + rest));
    lemma_occurs_in_middle(a + sha, msg, tail + rest);
}

/// The Contributors section lists every contributor, one line each, in order:
/// with none it is the heading and a blank line, and one more contributor
/// adds exactly its line `- <name>: <count> commits, last active <time>`
/// before the closing blank line.
pub proof fn lemma_contributors_section(cs: Seq<ContributorInfo>, c: ContributorInfo)
    ensures
        contributors_text(seq![]) == "## Contributors\n\n"@,
        contributors_text(cs.push(c)) == contributors_text(cs).drop_last() + "- "@ + c.name@
            + ": "@ + decimal(c.commit_count as nat) + " commits, last active "@ + rfc(
            c.last_active,
        ) + "\n"@ + "\n"@,
{
    reveal(contributors_text);
    reveal_strlit("\n");
    reveal_strlit("## Contributors\n");
    reveal_strlit("## Contributors\n\n");
    let f = |c: ContributorInfo| contributor_line(c);
    assert(Seq::<ContributorInfo>::empty().map_values(f) =~= Seq::<Seq<char>>::empty());
    assert(contributors_text(seq![]) =~= "## Contributors\n\n"@);
    let m = cs.map_values(f);
    assert(cs.push(c).map_values(f) =~= m.push(f(c)));
    assert(m.push(f(c)).drop_last() =~= m);
    let head = "## Contributors\n"@;
    assert((head + concat(m) + "\n"@).drop_last() =~= head + concat(m));
    assert(contributors_text(cs.push(c)) =~= head + concat(m) + contributor_line(c) + "\n"@);
}

/// A push- or scan-level STATUS.md ends with its Contributors section.
pub proof fn lemma_scan_tier_ends_with_contributors(d: StatusDoc)
    requires
        d.trigger != Trigger::Commit,
    ensures
        ({
            let t = status_text(d);
            let c = contributors_text(d.repo.contributors@);
            t.len() >= c.len() && t.skip(t.len() - c.len()) == c
        }),
{
    let t = status_text(d);
    let c = contributors_text(d.repo.contributors@);
    let p = frontmatter_text(d) + "\n"@ + last_commit_text(d.repo.last_commit) + activity_text(d.repo)
        + wip_text(d.workflow_wip) + context_text(d.context_md);
    assert(t =~= p + c);
    assert(t.skip(t.len() - c.len()) =~= c);
}

/// The sprints shown in the Workflow WIP table are exactly those that are not
/// closed, in order.
pub proof fn lemma_active_sprints_are_the_open_ones(s: Seq<SprintWipSummary>)
    ensures
        active_sprints(s) == s.filter(
            |x: SprintWipSummary| opt_text(x.sprint_state) != Some("CLOSED"@),
        ),
    decreases s.len(),
{
    reveal(Seq::filter);
    let p = |x: SprintWipSummary| opt_text(x.sprint_state) != Some("CLOSED"@);
    if s.len() == 0 {
        assert(s.filter(p) =~= s);
    } else {
        lemma_active_sprints_are_the_open_ones(s.drop_last());
        let sub = s.drop_last().filter(p);
        if p(s.last()) {
            assert(s.filter(p) == sub.push(s.last()));
            assert(active_sprints(s) =~= sub.push(s.last()));
        } else {
            assert(s.filter(p) == sub);
            assert(active_sprints(s) =~= sub);
        }
    }
}

/// The Workflow WIP table has one row per sprint shown, in order: with none
/// it is the header and a blank line, and one more sprint adds exactly its row
/// before the closing blank line.
pub proof fn lemma_wip_table_rows(active: Seq<SprintWipSummary>, x: SprintWipSummary)
    ensures
        wip_table(seq![]) == "\n"@
            + "| Sprint | State | Tranches (wip/done/total) | Dispatchable | Latest event |\n"@
            + "|--------|-------|---------------------------|--------------|--------------|\n"@
            + "\n"@,
        wip_table(active.push(x)) == wip_table(active).drop_last() + sprint_row(x) + "\n"@,
{
    reveal_strlit("\n");
    let f = |x: SprintWipSummary| sprint_row(x);
    assert(Seq::<SprintWipSummary>::empty().map_values(f) =~= Seq::<Seq<char>>::empty());
    let head = "\n"@
        + "| Sprint | State | Tranches (wip/done/total) | Dispatchable | Latest event |\n"@
        + "|--------|-------|---------------------------|--------------|--------------|\n"@;
    assert(wip_table(seq![]) =~= head + "\n"@);
    let m = active.map_values(f);
    assert(active.push(x).map_values(f) =~= m.push(f(x)));
    assert(m.push(f(x)).drop_last() =~= m);
    assert((head + concat(m) + "\n"@).drop_last() =~= head + concat(m));
    assert(wip_table(active.push(x)) =~= head + concat(m) + sprint_row(x) + "\n"@);
}

/// The Workflow WIP section: where some sprint is not closed, its heading and
/// summary line, then the table of exactly the sprints that are not closed,
/// then their unfinished tranches; where every sprint is closed, a line saying
/// there are no active sprints.
pub proof fn lemma_wip_section_shows_open_sprints(w: WorkflowWipStatus)
    ensures
        ({
            let open = w.sprints@.filter(
                |x: SprintWipSummary| opt_text(x.sprint_state) != Some("CLOSED"@),
            );
            &&& open.len() > 0 ==> wip_text(Some(w)) == wip_head(w) + wip_table(open) + wip_detail(
                open,
            )
            &&& open.len() == 0 ==> wip_text(Some(w)) == wip_head(w) + "- No active sprints.\n"@
                + "\n"@
        }),
{
    reveal(wip_text);
    lemma_active_sprints_are_the_open_ones(w.sprints@);
}
} // verus!
