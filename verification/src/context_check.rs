//! Where CONTEXT.md lives, and whether it has drifted from the history.
use vstd::prelude::*;
use crate::status_model::{rfc, ContextMdInfo, ContextMdStatus};
use crate::timestamp::{ts_before, Timestamp};

verus! {

/// The stub written where no CONTEXT.md exists.
pub const CONTEXT_MD_STUB: &'static str = "# Project Context\n\n## What This Is\n\n<!-- Describe the project purpose here -->\n\n## Current State\n\n<!-- Describe current state here -->\n";

/// Where CONTEXT.md is taken from.
#[derive(Clone, Copy, Debug, PartialEq, Eq)]
pub enum ContextLocation {
    /// `raptor/context/CONTEXT.md` exists.
    RaptorExisting,
    /// `CONTEXT.md` exists at the root.
    RootExisting,
    /// Neither exists and there is a `raptor/` directory: write the stub to
    /// `raptor/context/CONTEXT.md`, creating `raptor/context/`.
    RaptorStub,
    /// Neither exists and there is no `raptor/` directory: write the stub to
    /// `CONTEXT.md`.
    RootStub,
}

impl ContextLocation {
    /// The path relative to the project root.
    pub fn relative_path(&self) -> (r: &'static str)
        ensures
            r@ == match *self {
                ContextLocation::RaptorExisting | ContextLocation::RaptorStub =>
                    "raptor/context/CONTEXT.md"@,
                _ => "CONTEXT.md"@,
            },
    {
        match self {
            ContextLocation::RaptorExisting => "raptor/context/CONTEXT.md",
            ContextLocation::RaptorStub => "raptor/context/CONTEXT.md",
            _ => "CONTEXT.md",
        }
    }

    /// The stub is written at the stub locations only.
    pub open spec fn writes_stub_spec(&self) -> bool {
        *self == ContextLocation::RaptorStub || *self == ContextLocation::RootStub
    }

    /// Whether the stub is to be written there.
    pub fn writes_stub(&self) -> (r: bool)
        ensures
            r == self.writes_stub_spec(),
    {
        match self {
            ContextLocation::RaptorStub => true,
            ContextLocation::RootStub => true,
            _ => false,
        }
    }
}

/// The probe order for CONTEXT.md: `raptor/context/CONTEXT.md`, then
/// `CONTEXT.md`; where neither exists, a stub goes under `raptor/` when that
/// directory exists, else to the root. An existing file is never written.
pub fn resolve_context_location(raptor_context_exists: bool, root_context_exists: bool, raptor_dir_exists: bool) -> (r: ContextLocation)
    ensures
        raptor_context_exists ==> r == ContextLocation::RaptorExisting,
        !raptor_context_exists && root_context_exists ==> r == ContextLocation::RootExisting,
        !raptor_context_exists && !root_context_exists && raptor_dir_exists ==> r
            == ContextLocation::RaptorStub,
        !raptor_context_exists && !root_context_exists && !raptor_dir_exists ==> r
            == ContextLocation::RootStub,
        (r == ContextLocation::RaptorStub || r == ContextLocation::RootStub) ==> !raptor_context_exists
            && !root_context_exists,
{
    if raptor_context_exists {
        ContextLocation::RaptorExisting
    } else if root_context_exists {
        ContextLocation::RootExisting
    } else if raptor_dir_exists {
        ContextLocation::RaptorStub
    } else {
        ContextLocation::RootStub
    }
}

/// The probe order for a read-only look at CONTEXT.md (`rapstat check`):
/// `raptor/context/CONTEXT.md`, then `CONTEXT.md`; nothing when neither
/// exists, for no stub is ever written there.
pub fn resolve_existing_context(raptor_context_exists: bool, root_context_exists: bool) -> (r:
    Option<ContextLocation>)
    ensures
        raptor_context_exists ==> r == Some(ContextLocation::RaptorExisting),
        !raptor_context_exists && root_context_exists ==> r == Some(ContextLocation::RootExisting),
        !raptor_context_exists && !root_context_exists ==> r is None,
        r matches Some(l) ==> !l.writes_stub_spec(),
{
    if raptor_context_exists {
        Some(ContextLocation::RaptorExisting)
    } else if root_context_exists {
        Some(ContextLocation::RootExisting)
    } else {
        None
    }
}

/// The findings when there is no CONTEXT.md to inspect.
pub fn missing_context() -> (r: ContextMdInfo)
    ensures
        r.status == ContextMdStatus::Missing,
        r.last_modified is None,
        r.discrepancies@.len() == 0,
        r.resolved_path is None,
{
    ContextMdInfo {
        status: ContextMdStatus::Missing,
        last_modified: None,
        discrepancies: Vec::new(),
        resolved_path: None,
    }
}

/// The discrepancy reported when CONTEXT.md, last modified at the time written
/// `modified`, is older than the last commit, made at the time written `committed`.
pub open spec fn drift_text(modified: Seq<char>, committed: Seq<char>) -> Seq<char> {
    "CONTEXT.md last modified "@ + modified + " but last commit was "@ + committed
}

/// The discrepancy reported when CONTEXT.md is older than the last commit.
pub open spec fn drift_message(last_modified: Timestamp, last_commit: Timestamp) -> Seq<char> {
    drift_text(rfc(last_modified), rfc(last_commit))
}

/// The drift discrepancy for the RFC 3339 texts of the two times.
pub fn drift_discrepancy(modified: &str, committed: &str) -> (r: String)
    ensures
        r@ == drift_text(modified@, committed@),
{
    let mut msg = "CONTEXT.md last modified ".to_owned();
    crate::text::push_str(&mut msg, modified);
    crate::text::push_str(&mut msg, " but last commit was ");
    crate::text::push_str(&mut msg, committed);
    msg
}

/// The findings about a CONTEXT.md at `rel_path`, last modified at
/// `last_modified`: drift when it has not been touched since the last commit.
pub fn inspect_times(rel_path: &str, last_modified: Timestamp, last_commit: &Timestamp) -> (r:
    ContextMdInfo)
    ensures
        ts_before(last_modified@, last_commit@) ==> r.status == ContextMdStatus::DriftDetected
            && r.discrepancies@.len() == 1 && r.discrepancies@[0]@ == drift_message(
            last_modified,
            *last_commit,
        ),
        !ts_before(last_modified@, last_commit@) ==> r.status == ContextMdStatus::Okay
            && r.discrepancies@.len() == 0,
        r.last_modified == Some(last_modified),
        r.resolved_path matches Some(p) && p@ == rel_path@,
{
    let (status, discrepancies) = if last_modified.is_before(last_commit) {
        let a = last_modified.to_rfc3339();
        let b = last_commit.to_rfc3339();
        let msg = drift_discrepancy(a.as_str(), b.as_str());
        let mut v: Vec<String> = Vec::new();
        v.push(msg);
        (ContextMdStatus::DriftDetected, v)
    } else {
        (ContextMdStatus::Okay, Vec::new())
    };
    ContextMdInfo {
        status,
        last_modified: Some(last_modified),
        discrepancies,
        resolved_path: Some(rel_path.to_owned()),
    }
}

} // verus!
