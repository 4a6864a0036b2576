//! The decisions behind the command-line commands: what they show and count.
use vstd::prelude::*;
use crate::status_model::{rfc, ContextMdInfo, ContextMdStatus, Trigger};
use crate::text::{decimal, pad_left, pad_left_text, push_str, texts, u64_text};

verus! {

/// The trigger named on the command line.
#[derive(Clone, Copy, Debug, PartialEq, Eq)]
pub enum TriggerArg {
    /// Pre-commit hook: commit SHA not yet available
    Commit,
    /// Pre-push hook: full commit metadata available
    Push,
    /// Manual invocation or cron
    Scan,
}

impl TriggerArg {
    /// The trigger that the argument names.
    pub fn to_trigger(&self) -> (r: Trigger)
        ensures
            *self == TriggerArg::Commit ==> r == Trigger::Commit,
            *self == TriggerArg::Push ==> r == Trigger::Push,
            *self == TriggerArg::Scan ==> r == Trigger::Scan,
    {
        match self {
            TriggerArg::Commit => Trigger::Commit,
            TriggerArg::Push => Trigger::Push,
            TriggerArg::Scan => Trigger::Scan,
        }
    }
}

/// How a line of terminal output is coloured.
#[derive(Clone, Copy, Debug, PartialEq, Eq)]
pub enum Tone {
    /// Green.
    Good,
    /// Yellow, bold.
    Caution,
    /// Red.
    Alert,
    /// Red, bold.
    Failure,
    /// Yellow.
    Stale,
    /// Dimmed.
    Faint,
    /// No colour.
    Plain,
}

/// A line of terminal output with its colour.
#[derive(Debug, PartialEq, Eq)]
pub struct ToneLine {
    pub tone: Tone,
    pub text: String,
}

/// The views of report lines.
pub open spec fn tone_views(v: Seq<ToneLine>) -> Seq<(Tone, Seq<char>)> {
    v.map_values(|l: ToneLine| (l.tone, l.text@))
}

/// What `rapstat check` prints for the findings about CONTEXT.md.
pub open spec fn check_report_lines(info: ContextMdInfo) -> Seq<(Tone, Seq<char>)> {
    match info.status {
        ContextMdStatus::Okay => seq![(Tone::Good, "CONTEXT.md ok"@)] + match info.last_modified {
            Some(t) => seq![(Tone::Plain, "  Last modified: "@ + rfc(t))],
            None => seq![],
        },
        ContextMdStatus::DriftDetected => seq![(Tone::Caution, "CONTEXT.md drift detected"@)]
            + texts(info.discrepancies@).map_values(|d: Seq<char>| (Tone::Alert, "  "@ + d)),
        ContextMdStatus::Missing => seq![
            (Tone::Failure, "CONTEXT.md missing and could not be created"@),
        ],
    }
}

/// The lines that `rapstat check` prints for the findings about CONTEXT.md.
pub fn check_report(info: &ContextMdInfo) -> (r: Vec<ToneLine>)
    ensures
        tone_views(r@) == check_report_lines(*info),
{
    let mut r: Vec<ToneLine> = Vec::new();
    match info.status {
        ContextMdStatus::Okay => {
            r.push(ToneLine { tone: Tone::Good, text: "CONTEXT.md ok".to_owned() });
            match &info.last_modified {
                Some(t) => {
                    let mut s = "  Last modified: ".to_owned();
                    let tt = t.to_rfc3339();
                    push_str(&mut s, tt.as_str());
                    r.push(ToneLine { tone: Tone::Plain, text: s });
                },
                None => {},
            }
            assert(tone_views(r@) =~= check_report_lines(*info));
        },
        ContextMdStatus::DriftDetected => {
            r.push(ToneLine { tone: Tone::Caution, text: "CONTEXT.md drift detected".to_owned() });
            let ghost ds = texts(info.discrepancies@);
            let ghost f = |d: Seq<char>| (Tone::Alert, "  "@ + d);
            let mut i: usize = 0;
            assert(tone_views(r@) =~= seq![(Tone::Caution, "CONTEXT.md drift detected"@)]
                + ds.take(0).map_values(f));
            while i < info.discrepancies.len()
                invariant
                    i <= info.discrepancies.len(),
                    ds == texts(info.discrepancies@),
                    f == (|d: Seq<char>| (Tone::Alert, "  "@ + d)),
                    tone_views(r@) == seq![(Tone::Caution, "CONTEXT.md drift detected"@)]
                        + ds.take(i as int).map_values(f),
                decreases info.discrepancies.len() - i,
            {
                let mut s = "  ".to_owned();
                push_str(&mut s, info.discrepancies[i].as_str());
                let ghost before = r@;
                r.push(ToneLine { tone: Tone::Alert, text: s });
                proof {
                    assert(ds.take(i + 1).map_values(f) =~= ds.take(i as int).map_values(f).push(
                        f(ds[i as int]),
                    ));
                    assert(tone_views(r@) =~= tone_views(before).push((Tone::Alert, s@)));
                }
                i = i + 1;
            }
            assert(ds.take(i as int) =~= ds);
        },
        ContextMdStatus::Missing => {
            r.push(
                ToneLine {
                    tone: Tone::Failure,
                    text: "CONTEXT.md missing and could not be created".to_owned(),
                },
            );
            assert(tone_views(r@) =~= check_report_lines(*info));
        },
    }
    r
}

/// How long ago STATUS.md was written, at minute, hour or day precision, the
/// number right-aligned in three columns.
pub open spec fn age_label(secs: nat) -> (Tone, Seq<char>) {
    if secs < 3600 {
        (Tone::Good, pad_left(decimal(secs / 60), 3) + "m ago"@)
    } else if secs < 86400 {
        (Tone::Plain, pad_left(decimal(secs / 3600), 3) + "h ago"@)
    } else {
        (Tone::Stale, pad_left(decimal(secs / 86400), 3) + "d ago"@)
    }
}

/// The age of a STATUS.md written `secs` seconds ago, as `rapstat projects list` shows it.
pub fn status_age_label(secs: u64) -> (r: ToneLine)
    ensures
        (r.tone, r.text@) == age_label(secs as nat),
{
    let (tone, n, unit) = if secs < 3600 {
        (Tone::Good, secs / 60, "m ago")
    } else if secs < 86400 {
        (Tone::Plain, secs / 3600, "h ago")
    } else {
        (Tone::Stale, secs / 86400, "d ago")
    };
    let digits = u64_text(n);
    let mut s = pad_left_text(digits.as_str(), 3);
    push_str(&mut s, unit);
    ToneLine { tone, text: s }
}

/// What `rapstat projects list` shows for the age of a project's STATUS.md:
/// `missing` when there is none, `unknown` when its age cannot be read.
pub open spec fn status_age_text(exists: bool, elapsed_secs: Option<u64>) -> (Tone, Seq<char>) {
    if !exists {
        (Tone::Stale, "missing"@)
    } else {
        match elapsed_secs {
            Some(s) => age_label(s as nat),
            None => (Tone::Faint, "unknown"@),
        }
    }
}

/// The age column of `rapstat projects list` for a STATUS.md that exists or
/// not, written `elapsed_secs` seconds ago where that could be read.
pub fn status_age(exists: bool, elapsed_secs: Option<u64>) -> (r: ToneLine)
    ensures
        (r.tone, r.text@) == status_age_text(exists, elapsed_secs),
{
    if !exists {
        ToneLine { tone: Tone::Stale, text: "missing".to_owned() }
    } else {
        match elapsed_secs {
            Some(s) => status_age_label(s),
            None => ToneLine { tone: Tone::Faint, text: "unknown".to_owned() },
        }
    }
}

/// The byte length of a text.
pub open spec fn byte_len(s: String) -> nat {
    (vstd::utf8::encode_utf8(s@).len() as usize) as nat
}

/// The width of a column: its widest entry in bytes, and at least 4.
pub open spec fn column_width(items: Seq<String>) -> nat
    decreases items.len(),
{
    if items.len() == 0 {
        4
    } else {
        let w = column_width(items.drop_last());
        let l = byte_len(items.last());
        if l > w {
            l
        } else {
            w
        }
    }
}

/// The width of a column of `rapstat projects list`.
pub fn column_width_of(items: &Vec<String>) -> (r: usize)
    ensures
        r == column_width(items@),
{
    let mut w: usize = 4;
    let mut i: usize = 0;
    assert(items@.take(0) =~= Seq::<String>::empty());
    while i < items.len()
        invariant
            i <= items.len(),
            w == column_width(items@.take(i as int)),
        decreases items.len() - i,
    {
        proof {
            assert(items@.take(i + 1).drop_last() =~= items@.take(i as int));
            assert(items@.take(i + 1).last() == items@[i as int]);
        }
        let l = items[i].as_str().len();
        if l > w {
            w = l;
        }
        i = i + 1;
    }
    assert(items@.take(i as int) =~= items@);
    w
}

/// The count of outcomes of a run over several projects.
#[derive(Clone, Copy, Debug, PartialEq, Eq)]
pub struct Outcomes {
    pub succeeded: usize,
    pub failed: usize,
}

impl Outcomes {
    /// No outcomes yet.
    pub fn new() -> (r: Outcomes)
        ensures
            r.succeeded == 0 && r.failed == 0,
    {
        Outcomes { succeeded: 0, failed: 0 }
    }

    /// Counts one more outcome.
    pub fn record(&mut self, succeeded: bool)
        requires
            old(self).succeeded + old(self).failed < usize::MAX,
        ensures
            succeeded ==> final(self).succeeded == old(self).succeeded + 1 && final(self).failed
                == old(self).failed,
            !succeeded ==> final(self).failed == old(self).failed + 1 && final(self).succeeded
                == old(self).succeeded,
    {
        if succeeded {
            self.succeeded = self.succeeded + 1;
        } else {
            self.failed = self.failed + 1;
        }
    }
}

} // verus!
