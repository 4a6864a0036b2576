//! Sprint and tranche progress as recorded in workflow state files, and the
//! summary of it that STATUS.md shows.
use vstd::prelude::*;
use crate::order::{key_of, lemma_map_values_multiset, lemma_sort_by_key, sort_by_key, sort_entries_by_key, text_lt};
use crate::tally::{keys_ascending, lemma_tally_determined, lookup, TrancheCounts};
use crate::text::{ascii_lower, copy_opt_string, copy_strings, opt_text, str_eq, texts, to_ascii_lower};
use crate::timestamp::{ts_before, Timestamp};

verus! {

/// The view of an optional instant.
pub open spec fn opt_ts(o: Option<Timestamp>) -> Option<(i64, u32)> {
    match o {
        Some(t) => Some(t@),
        None => None,
    }
}

/// A tranche as a workflow state file records it.
#[derive(Debug, PartialEq, Eq)]
pub struct WorkflowStateTranche {
    pub id: Option<String>,
    pub state: Option<String>,
    pub depends_on: Vec<String>,
    pub last_event: Option<String>,
}

/// One entry of a workflow state file's event log.
#[derive(Debug, PartialEq, Eq)]
pub struct WorkflowEventRecord {
    pub event_type: Option<String>,
}

/// The content of a sprint's `_workflow_state.yaml`.
#[derive(Debug, PartialEq, Eq)]
pub struct WorkflowStateFile {
    pub sprint_id: Option<String>,
    pub sprint_state: Option<String>,
    pub updated_at: Option<Timestamp>,
    pub event_log: Option<Vec<WorkflowEventRecord>>,
    pub tranches: Option<Vec<WorkflowStateTranche>>,
}

/// A tranche that is not finished.
#[derive(Debug, PartialEq, Eq)]
pub struct TrancheWipSummary {
    pub id: String,
    pub state: String,
    pub depends_on: Vec<String>,
    pub last_event: Option<String>,
}

/// The view of a `TrancheWipSummary`.
pub struct TrancheWipView {
    pub id: Seq<char>,
    pub state: Seq<char>,
    pub depends_on: Seq<Seq<char>>,
    pub last_event: Option<Seq<char>>,
}

impl View for TrancheWipSummary {
    type V = TrancheWipView;

    open spec fn view(&self) -> TrancheWipView {
        TrancheWipView {
            id: self.id@,
            state: self.state@,
            depends_on: texts(self.depends_on@),
            last_event: opt_text(self.last_event),
        }
    }
}

/// The progress of one sprint.
#[derive(Debug, PartialEq, Eq)]
pub struct SprintWipSummary {
    pub sprint_id: String,
    pub sprint_state: Option<String>,
    pub latest_event_type: Option<String>,
    pub updated_at: Option<Timestamp>,
    pub dispatchable: Vec<String>,
    pub wip_tranches: Vec<TrancheWipSummary>,
    pub counts: TrancheCounts,
}

/// The view of a `SprintWipSummary`.
pub struct SprintWipView {
    pub sprint_id: Seq<char>,
    pub sprint_state: Option<Seq<char>>,
    pub latest_event_type: Option<Seq<char>>,
    pub updated_at: Option<(i64, u32)>,
    pub dispatchable: Seq<Seq<char>>,
    pub wip_tranches: Seq<TrancheWipView>,
    pub counts: Seq<(Seq<char>, usize)>,
}

/// The views of a list of tranche summaries.
pub open spec fn tranche_views(s: Seq<TrancheWipSummary>) -> Seq<TrancheWipView> {
    s.map_values(|t: TrancheWipSummary| t@)
}

impl View for SprintWipSummary {
    type V = SprintWipView;

    open spec fn view(&self) -> SprintWipView {
        SprintWipView {
            sprint_id: self.sprint_id@,
            sprint_state: opt_text(self.sprint_state),
            latest_event_type: opt_text(self.latest_event_type),
            updated_at: opt_ts(self.updated_at),
            dispatchable: texts(self.dispatchable@),
            wip_tranches: tranche_views(self.wip_tranches@),
            counts: self.counts@,
        }
    }
}

/// Sprint totals.
#[derive(Clone, Copy, Debug, PartialEq, Eq)]
pub struct WorkflowWipCounts {
    pub total_sprints: usize,
    pub active_sprints: usize,
    pub closed_sprints: usize,
}

impl WorkflowWipCounts {
    /// All totals zero.
    pub fn new() -> (r: WorkflowWipCounts)
        ensures
            r.total_sprints == 0,
            r.active_sprints == 0,
            r.closed_sprints == 0,
    {
        WorkflowWipCounts { total_sprints: 0, active_sprints: 0, closed_sprints: 0 }
    }
}

/// The workflow progress of a project.
#[derive(Debug, PartialEq, Eq)]
pub struct WorkflowWipStatus {
    pub schema_version: Option<String>,
    pub project_id: Option<String>,
    pub updated_at: Option<Timestamp>,
    pub current_sprint: Option<SprintWipSummary>,
    pub active_sprint_ids: Vec<String>,
    pub counts: WorkflowWipCounts,
    pub sprints: Vec<SprintWipSummary>,
}

// ---------------------------------------------------------------------------
// Tranche counts

/// The state by which a tranche is counted: its state in lower case, or `unknown`.
pub open spec fn state_key(t: WorkflowStateTranche) -> Seq<char> {
    ascii_lower(
        match t.state {
            Some(s) => s@,
            None => "unknown"@,
        },
    )
}

/// The counting states of a list of tranches.
pub open spec fn state_keys(ts: Seq<WorkflowStateTranche>) -> Seq<Seq<char>> {
    ts.map_values(|t: WorkflowStateTranche| state_key(t))
}

/// A state that counts a tranche as finished.
pub open spec fn is_finished_state(s: Seq<char>) -> bool {
    s == "done"@ || s == "archived"@ || s == "cancelled"@
}

/// How many of the states are finished ones.
pub open spec fn num_finished(states: Seq<Seq<char>>) -> nat
    decreases states.len(),
{
    if states.len() == 0 {
        0
    } else {
        num_finished(states.drop_last()) + if is_finished_state(states.last()) {
            1nat
        } else {
            0nat
        }
    }
}

/// How many of the states equal `k`.
pub open spec fn num_equal(states: Seq<Seq<char>>, k: Seq<char>) -> nat
    decreases states.len(),
{
    if states.len() == 0 {
        0
    } else {
        num_equal(states.drop_last(), k) + if states.last() == k {
            1nat
        } else {
            0nat
        }
    }
}

/// The keys that the tally of `states` records.
pub open spec fn tallied(states: Seq<Seq<char>>, k: Seq<char>) -> bool {
    k == "total"@ || k == "wip"@ || k == "done"@ || states.contains(k)
}

/// The count that the tally of `states` records for `k`, with `total` tranches:
/// `total` starts at the number of tranches; each finished tranche adds one to
/// `done`, and one to its own state unless that is `done`; every other tranche
/// adds one to `wip` and one to its own state.
pub open spec fn tally_value(states: Seq<Seq<char>>, total: nat, k: Seq<char>) -> nat {
    (if k == "total"@ {
        total
    } else {
        0
    }) + (if k == "done"@ {
        num_finished(states)
    } else {
        0
    }) + (if k == "wip"@ {
        (states.len() - num_finished(states)) as nat
    } else {
        0
    }) + (if k != "done"@ {
        num_equal(states, k)
    } else {
        0
    })
}

proof fn lemma_counts_bounded(states: Seq<Seq<char>>, k: Seq<char>)
    ensures
        num_finished(states) <= states.len(),
        num_equal(states, k) <= states.len(),
        is_finished_state(k) ==> num_equal(states, k) <= num_finished(states),
        !is_finished_state(k) ==> num_equal(states, k) <= states.len() - num_finished(states),
    decreases states.len(),
{
    if states.len() > 0 {
        lemma_counts_bounded(states.drop_last(), k);
    }
}

proof fn lemma_num_equal_contains(states: Seq<Seq<char>>, k: Seq<char>)
    ensures
        num_equal(states, k) > 0 <==> states.contains(k),
    decreases states.len(),
{
    if states.len() > 0 {
        lemma_num_equal_contains(states.drop_last(), k);
        if states.drop_last().contains(k) {
            let i = choose|i: int| 0 <= i < states.drop_last().len() && states.drop_last()[i] == k;
            assert(states[i] == k);
        }
        if states.contains(k) && states.last() != k {
            let i = choose|i: int| 0 <= i < states.len() && states[i] == k;
            assert(states.drop_last()[i] == k);
        }
    }
}

proof fn lemma_tally_bound(states: Seq<Seq<char>>, n: nat, k: Seq<char>)
    requires
        states.len() <= n,
    ensures
        tally_value(states, n, k) <= n + states.len(),
{
    reveal_literals();
    lemma_counts_bounded(states, k);
}

/// The state names that the tally tells apart are distinct texts.
proof fn reveal_literals()
    ensures
        "total"@ != "wip"@,
        "total"@ != "done"@,
        "wip"@ != "done"@,
        !is_finished_state("wip"@),
        !is_finished_state("total"@),
        is_finished_state("done"@),
{
    reveal_strlit("total");
    reveal_strlit("wip");
    reveal_strlit("done");
    reveal_strlit("archived");
    reveal_strlit("cancelled");
    assert("total"@.len() == 5);
    assert("wip"@.len() == 3);
    assert("done"@.len() == 4);
    assert("archived"@.len() == 8);
    assert("cancelled"@.len() == 9);
}

/// One more tranche in state `s`: which keys the tally records, and by how much
/// each count grows.
proof fn lemma_tally_push(pre: Seq<Seq<char>>, s: Seq<char>, n: nat, k: Seq<char>)
    ensures
        tallied(pre.push(s), k) == (tallied(pre, k) || k == s),
        tally_value(pre.push(s), n, k) == tally_value(pre, n, k) + (if is_finished_state(s) {
            if k == "done"@ {
                1nat
            } else {
                0nat
            }
        } else {
            if k == "wip"@ {
                1nat
            } else {
                0nat
            }
        }) + (if s != "done"@ && k == s {
            1nat
        } else {
            0nat
        }),
{
    let post = pre.push(s);
    assert(post.drop_last() =~= pre);
    lemma_counts_bounded(pre, k);
    if post.contains(k) && k != s {
        let j = choose|j: int| 0 <= j < post.len() && post[j] == k;
        assert(pre[j] == k);
    }
    if pre.contains(k) {
        let j = choose|j: int| 0 <= j < pre.len() && pre[j] == k;
        assert(post[j] == k);
    }
    if k == s {
        assert(post[pre.len() as int] == k);
    }
}

/// How much one more tranche in state `s` adds to the count of `k`.
pub open spec fn tally_increment(s: Seq<char>, k: Seq<char>) -> nat {
    (if is_finished_state(s) {
        if k == "done"@ {
            1nat
        } else {
            0nat
        }
    } else {
        if k == "wip"@ {
            1nat
        } else {
            0nat
        }
    }) + (if s != "done"@ && k == s {
        1nat
    } else {
        0nat
    })
}

/// The entry for `k` after one more tranche in state `s`.
pub open spec fn bumped(before: Seq<(Seq<char>, usize)>, s: Seq<char>, k: Seq<char>) -> Option<usize> {
    if tally_increment(s, k) == 0 {
        lookup(before, k)
    } else {
        Some(
            ((match lookup(before, k) {
                Some(v) => v as nat,
                None => 0nat,
            }) + tally_increment(s, k)) as usize,
        )
    }
}

proof fn lemma_tally_step(
    before: Seq<(Seq<char>, usize)>,
    after: Seq<(Seq<char>, usize)>,
    pre: Seq<Seq<char>>,
    s: Seq<char>,
    n: nat,
)
    requires
        pre.len() < n,
        n <= usize::MAX / 2,
        forall|k: Seq<char>|
            #![trigger lookup(before, k)]
            lookup(before, k) == if tallied(pre, k) {
                Some(tally_value(pre, n, k) as usize)
            } else {
                None
            },
        forall|k: Seq<char>| #![trigger lookup(after, k)] lookup(after, k) == bumped(before, s, k),
    ensures
        forall|k: Seq<char>|
            #![trigger lookup(after, k)]
            lookup(after, k) == if tallied(pre.push(s), k) {
                Some(tally_value(pre.push(s), n, k) as usize)
            } else {
                None
            },
{
    assert forall|k: Seq<char>| #![trigger lookup(after, k)]
        lookup(after, k) == if tallied(pre.push(s), k) {
            Some(tally_value(pre.push(s), n, k) as usize)
        } else {
            None
        } by {
        reveal_literals();
        lemma_tally_push(pre, s, n, k);
        lemma_tally_bound(pre, n, k);
        assert(lookup(before, k) == if tallied(pre, k) {
            Some(tally_value(pre, n, k) as usize)
        } else {
            None
        });
        lemma_num_equal_contains(pre, k);
        assert(tally_value(pre, n, k) <= usize::MAX);
        if !tallied(pre, k) {
            assert(tally_value(pre, n, k) == 0);
        }
        if tally_increment(s, k) > 0 {
            assert(tallied(pre.push(s), k));
        }
    }
}

/// `r` is the tally of the states of `ts`: in key order, each key once, with
/// the count that `tally_value` gives for each key that the tally records.
pub open spec fn is_tranche_tally(r: Seq<(Seq<char>, usize)>, ts: Seq<WorkflowStateTranche>) -> bool {
    &&& keys_ascending(r)
    &&& forall|k: Seq<char>|
        #![trigger lookup(r, k)]
        lookup(r, k) == if tallied(state_keys(ts), k) {
            Some(tally_value(state_keys(ts), ts.len(), k) as usize)
        } else {
            None
        }
}

/// The tally of tranche states: how many tranches there are, how many are
/// finished (`done`), how many are not (`wip`), and how many are in each state.
pub fn collect_tranche_counts(tranches: &[WorkflowStateTranche]) -> (r: TrancheCounts)
    requires
        tranches.len() <= usize::MAX / 2,
    ensures
        forall|k: Seq<char>|
            #![trigger lookup(r@, k)]
            lookup(r@, k) == if tallied(state_keys(tranches@), k) {
                Some(tally_value(state_keys(tranches@), tranches@.len(), k) as usize)
            } else {
                None
            },
        is_tranche_tally(r@, tranches@),
{
    let ghost all = state_keys(tranches@);
    let n = tranches.len();
    let mut counts = TrancheCounts::new();
    counts.set("total", 0);
    counts.set("wip", 0);
    counts.set("done", 0);
    counts.set("total", n);
    let mut i: usize = 0;
    proof {
        assert(all.take(0) =~= Seq::<Seq<char>>::empty());
    }
    while i < n
        invariant
            i <= n,
            n == tranches.len(),
            n <= usize::MAX / 2,
            all == state_keys(tranches@),
            keys_ascending(counts@),
            forall|k: Seq<char>|
                #![trigger lookup(counts@, k)]
                lookup(counts@, k) == if tallied(all.take(i as int), k) {
                    Some(tally_value(all.take(i as int), n as nat, k) as usize)
                } else {
                    None
                },
        decreases n - i,
    {
        let ghost pre = all.take(i as int);
        let ghost before = counts@;
        let raw = match &tranches[i].state {
            Some(s) => s.as_str(),
            None => "unknown",
        };
        let state = to_ascii_lower(raw);
        proof {
            assert(all.take(i + 1) =~= pre.push(state@));
            lemma_tally_bound(pre, n as nat, "done"@);
            lemma_tally_bound(pre, n as nat, "wip"@);
            lemma_tally_bound(pre, n as nat, state@);
            assert(lookup(before, "done"@) is Some);
            assert(lookup(before, "wip"@) is Some);
        }
        let finished = str_eq(state.as_str(), "done") || str_eq(state.as_str(), "archived")
            || str_eq(state.as_str(), "cancelled");
        proof {
            reveal_literals();
        }
        if finished {
            counts.add("done", 1);
            if !str_eq(state.as_str(), "done") {
                counts.add(state.as_str(), 1);
            }
        } else {
            counts.add("wip", 1);
            counts.add(state.as_str(), 1);
        }
        proof {
            assert forall|k: Seq<char>| #![trigger lookup(counts@, k)]
                lookup(counts@, k) == bumped(before, state@, k) by {}
            lemma_tally_step(before, counts@, pre, state@, n as nat);
            assert(all.take(i + 1) =~= pre.push(state@));
        }
        i = i + 1;
    }
    proof {
        assert(all.take(n as int) =~= all);
    }
    counts
}

} // verus!

verus! {

/// Each tranche is counted once, as finished or as not, provided no tranche is
/// in a state literally named `wip` or `total`: then `done` + `wip` = `total`.
pub proof fn lemma_tranche_counts_partition(tranches: Seq<WorkflowStateTranche>)
    requires
        !state_keys(tranches).contains("wip"@),
        !state_keys(tranches).contains("total"@),
    ensures
        tally_value(state_keys(tranches), tranches.len(), "done"@) + tally_value(
            state_keys(tranches),
            tranches.len(),
            "wip"@,
        ) == tally_value(state_keys(tranches), tranches.len(), "total"@),
{
    let states = state_keys(tranches);
    reveal_literals();
    lemma_num_equal_contains(states, "wip"@);
    lemma_num_equal_contains(states, "total"@);
    lemma_counts_bounded(states, "wip"@);
}

proof fn lemma_num_equal_count(states: Seq<Seq<char>>, k: Seq<char>)
    ensures
        num_equal(states, k) == states.to_multiset().count(k),
    decreases states.len(),
{
    broadcast use vstd::seq_lib::group_to_multiset_ensures;
    broadcast use vstd::multiset::group_multiset_axioms;

    if states.len() > 0 {
        let pre = states.drop_last();
        lemma_num_equal_count(pre, k);
        assert(states =~= pre.push(states.last()));
    } else {
        assert(states.to_multiset().len() == 0);
    }
}

proof fn lemma_num_finished_split(states: Seq<Seq<char>>)
    ensures
        num_finished(states) == num_equal(states, "done"@) + num_equal(states, "archived"@)
            + num_equal(states, "cancelled"@),
    decreases states.len(),
{
    reveal_strlit("done");
    reveal_strlit("archived");
    reveal_strlit("cancelled");
    assert("done"@.len() == 4);
    assert("archived"@.len() == 8);
    assert("cancelled"@.len() == 9);
    if states.len() > 0 {
        lemma_num_finished_split(states.drop_last());
    }
}

/// The tally of tranche states depends only on how many tranches are in each
/// (lower-cased) state, not on their order.
proof fn lemma_tally_by_states(a: Seq<WorkflowStateTranche>, b: Seq<WorkflowStateTranche>)
    requires
        state_keys(a).to_multiset() == state_keys(b).to_multiset(),
    ensures
        a.len() == b.len(),
        forall|k: Seq<char>|
            #![trigger tallied(state_keys(a), k)]
            tallied(state_keys(a), k) == tallied(state_keys(b), k) && tally_value(
                state_keys(a),
                a.len(),
                k,
            ) == tally_value(state_keys(b), b.len(), k),
{
    broadcast use vstd::seq_lib::group_to_multiset_ensures;

    let sa = state_keys(a);
    let sb = state_keys(b);
    assert(sa.to_multiset().len() == sa.len());
    assert(sb.to_multiset().len() == sb.len());
    lemma_num_finished_split(sa);
    lemma_num_finished_split(sb);
    lemma_num_equal_count(sa, "done"@);
    lemma_num_equal_count(sb, "done"@);
    lemma_num_equal_count(sa, "archived"@);
    lemma_num_equal_count(sb, "archived"@);
    lemma_num_equal_count(sa, "cancelled"@);
    lemma_num_equal_count(sb, "cancelled"@);
    assert forall|k: Seq<char>| #![trigger tallied(state_keys(a), k)]
        tallied(sa, k) == tallied(sb, k) && tally_value(sa, a.len(), k) == tally_value(
            sb,
            b.len(),
            k,
        ) by {
        lemma_num_equal_count(sa, k);
        lemma_num_equal_count(sb, k);
        assert(sa.contains(k) <==> sa.to_multiset().count(k) > 0);
        assert(sb.contains(k) <==> sb.to_multiset().count(k) > 0);
    }
}

/// Reordering the tranches leaves their tally as it is: the tally of a
/// reordering of `a` is the tally of `a`.
pub proof fn lemma_tranche_counts_ignore_order(
    a: Seq<WorkflowStateTranche>,
    b: Seq<WorkflowStateTranche>,
    ra: Seq<(Seq<char>, usize)>,
    rb: Seq<(Seq<char>, usize)>,
)
    requires
        a.to_multiset() == b.to_multiset(),
        is_tranche_tally(ra, a),
        is_tranche_tally(rb, b),
    ensures
        ra == rb,
{
    lemma_map_values_multiset(a, b, |t: WorkflowStateTranche| state_key(t));
    lemma_same_tally(a, b, ra, rb);
}

/// Two states that differ at most in ASCII letter case; a missing state only
/// matches a missing one.
pub open spec fn same_up_to_case(x: Option<String>, y: Option<String>) -> bool {
    match (x, y) {
        (Some(p), Some(q)) => ascii_lower(p@) == ascii_lower(q@),
        (None, None) => true,
        _ => false,
    }
}

/// Changing the letter case of tranche states leaves their tally as it is.
pub proof fn lemma_tranche_counts_ignore_case(
    a: Seq<WorkflowStateTranche>,
    b: Seq<WorkflowStateTranche>,
    ra: Seq<(Seq<char>, usize)>,
    rb: Seq<(Seq<char>, usize)>,
)
    requires
        a.len() == b.len(),
        forall|i: int| 0 <= i < a.len() ==> same_up_to_case(#[trigger] a[i].state, b[i].state),
        is_tranche_tally(ra, a),
        is_tranche_tally(rb, b),
    ensures
        ra == rb,
{
    assert(state_keys(a) =~= state_keys(b)) by {
        assert forall|i: int| 0 <= i < a.len() implies state_keys(a)[i] == state_keys(b)[i] by {
            assert(same_up_to_case(a[i].state, b[i].state));
        }
    }
    lemma_same_tally(a, b, ra, rb);
}

proof fn lemma_same_tally(
    a: Seq<WorkflowStateTranche>,
    b: Seq<WorkflowStateTranche>,
    ra: Seq<(Seq<char>, usize)>,
    rb: Seq<(Seq<char>, usize)>,
)
    requires
        state_keys(a).to_multiset() == state_keys(b).to_multiset(),
        is_tranche_tally(ra, a),
        is_tranche_tally(rb, b),
    ensures
        ra == rb,
{
    lemma_tally_by_states(a, b);
    assert forall|k: Seq<char>| #![trigger lookup(ra, k)] lookup(ra, k) == lookup(rb, k) by {
        assert(tallied(state_keys(a), k) == tallied(state_keys(b), k));
    }
    lemma_tally_determined(ra, rb);
}

/// The ids of the tranches that are ready to be dispatched (state `READY`), in order.
pub open spec fn ready_ids(ts: Seq<WorkflowStateTranche>) -> Seq<Seq<char>>
    decreases ts.len(),
{
    if ts.len() == 0 {
        seq![]
    } else {
        let t = ts.last();
        ready_ids(ts.drop_last()) + if opt_text(t.state) == Some("READY"@) && t.id is Some {
            seq![t.id->0@]
        } else {
            seq![]
        }
    }
}

/// A tranche state that means the tranche needs no more work.
pub open spec fn is_settled(state: Option<String>) -> bool {
    match state {
        Some(s) => s@ == "DONE"@ || s@ == "ARCHIVED"@ || s@ == "CANCELLED"@,
        None => false,
    }
}

/// The summary of each unsettled tranche that has an id, in order; a missing
/// state reads `unknown`.
pub open spec fn wip_views(ts: Seq<WorkflowStateTranche>) -> Seq<TrancheWipView>
    decreases ts.len(),
{
    if ts.len() == 0 {
        seq![]
    } else {
        let t = ts.last();
        wip_views(ts.drop_last()) + if !is_settled(t.state) && t.id is Some {
            seq![
                TrancheWipView {
                    id: t.id->0@,
                    state: match t.state {
                        Some(s) => s@,
                        None => "unknown"@,
                    },
                    depends_on: texts(t.depends_on@),
                    last_event: opt_text(t.last_event),
                },
            ]
        } else {
            seq![]
        }
    }
}

/// The event type of the last entry of an event log, if it has one.
pub open spec fn last_event_type(log: Option<Vec<WorkflowEventRecord>>) -> Option<Seq<char>> {
    match log {
        Some(l) => if l@.len() > 0 {
            opt_text(l@.last().event_type)
        } else {
            None
        },
        None => None,
    }
}

/// The tranches of a state file; none when it lists none.
pub open spec fn file_tranches(ws: WorkflowStateFile) -> Seq<WorkflowStateTranche> {
    match ws.tranches {
        Some(t) => t@,
        None => seq![],
    }
}

impl TrancheWipSummary {
    /// An equal summary.
    pub fn duplicate(&self) -> (r: TrancheWipSummary)
        ensures
            r@ == self@,
    {
        TrancheWipSummary {
            id: self.id.clone(),
            state: self.state.clone(),
            depends_on: copy_strings(&self.depends_on),
            last_event: copy_opt_string(&self.last_event),
        }
    }
}


/// The ids of the ready tranches of `ts`.
fn collect_ready_ids(ts: &Vec<WorkflowStateTranche>) -> (r: Vec<String>)
    ensures
        texts(r@) == ready_ids(ts@),
{
    let mut r: Vec<String> = Vec::new();
    let mut i: usize = 0;
    assert(ts@.take(0) =~= Seq::<WorkflowStateTranche>::empty());
    while i < ts.len()
        invariant
            i <= ts.len(),
            texts(r@) == ready_ids(ts@.take(i as int)),
        decreases ts.len() - i,
    {
        let t = &ts[i];
        let ghost before = r@;
        proof {
            assert(ts@.take(i + 1).drop_last() =~= ts@.take(i as int));
            assert(ts@.take(i + 1).last() == *t);
        }
        let ready = match &t.state {
            Some(s) => str_eq(s.as_str(), "READY"),
            None => false,
        };
        if ready {
            match &t.id {
                Some(id) => {
                    r.push(id.clone());
                    assert(texts(r@) =~= texts(before) + seq![id@]);
                },
                None => {
                    assert(texts(before) + seq![] =~= texts(before));
                },
            }
        } else {
            assert(texts(before) + seq![] =~= texts(before));
        }
        i = i + 1;
    }
    assert(ts@.take(ts.len() as int) =~= ts@);
    r
}

/// The summaries of the unsettled tranches of `ts`.
fn collect_wip_tranches(ts: &Vec<WorkflowStateTranche>) -> (r: Vec<TrancheWipSummary>)
    ensures
        tranche_views(r@) == wip_views(ts@),
{
    let mut r: Vec<TrancheWipSummary> = Vec::new();
    let mut i: usize = 0;
    assert(ts@.take(0) =~= Seq::<WorkflowStateTranche>::empty());
    while i < ts.len()
        invariant
            i <= ts.len(),
            tranche_views(r@) == wip_views(ts@.take(i as int)),
        decreases ts.len() - i,
    {
        let t = &ts[i];
        let ghost before = r@;
        proof {
            assert(ts@.take(i + 1).drop_last() =~= ts@.take(i as int));
            assert(ts@.take(i + 1).last() == *t);
        }
        let settled = match &t.state {
            Some(s) => str_eq(s.as_str(), "DONE") || str_eq(s.as_str(), "ARCHIVED") || str_eq(
                s.as_str(),
                "CANCELLED",
            ),
            None => false,
        };
        if !settled {
            match &t.id {
                Some(id) => {
                    let state = match &t.state {
                        Some(s) => s.clone(),
                        None => "unknown".to_owned(),
                    };
                    let w = TrancheWipSummary {
                        id: id.clone(),
                        state,
                        depends_on: copy_strings(&t.depends_on),
                        last_event: copy_opt_string(&t.last_event),
                    };
                    r.push(w);
                    assert(tranche_views(r@) =~= tranche_views(before) + seq![w@]);
                },
                None => {
                    assert(tranche_views(before) + seq![] =~= tranche_views(before));
                },
            }
        } else {
            assert(tranche_views(before) + seq![] =~= tranche_views(before));
        }
        i = i + 1;
    }
    assert(ts@.take(ts.len() as int) =~= ts@);
    r
}

impl SprintWipSummary {
    /// The summary of a sprint from its workflow state file. `dir_name` is the
    /// name of the sprint's directory, which stands in for a missing sprint id.
    pub fn from_workflow_state(dir_name: Option<String>, workflow_state: WorkflowStateFile) -> (r:
        SprintWipSummary)
        requires
            file_tranches(workflow_state).len() <= usize::MAX / 2,
        ensures
            r.sprint_id@ == match workflow_state.sprint_id {
                Some(s) => s@,
                None => match dir_name {
                    Some(d) => d@,
                    None => "unknown"@,
                },
            },
            r.sprint_state == workflow_state.sprint_state,
            opt_text(r.latest_event_type) == last_event_type(workflow_state.event_log),
            r.updated_at == workflow_state.updated_at,
            texts(r.dispatchable@) == ready_ids(file_tranches(workflow_state)),
            tranche_views(r.wip_tranches@) == wip_views(file_tranches(workflow_state)),
            forall|k: Seq<char>|
                #![trigger lookup(r.counts@, k)]
                lookup(r.counts@, k) == if tallied(state_keys(file_tranches(workflow_state)), k) {
                    Some(
                        tally_value(
                            state_keys(file_tranches(workflow_state)),
                            file_tranches(workflow_state).len(),
                            k,
                        ) as usize,
                    )
                } else {
                    None
                },
    {
        let WorkflowStateFile { sprint_id, sprint_state, updated_at, event_log, tranches } =
            workflow_state;
        let tranches = match tranches {
            Some(t) => t,
            None => Vec::new(),
        };
        let sprint_id = match sprint_id {
            Some(s) => s,
            None => match dir_name {
                Some(d) => d,
                None => "unknown".to_owned(),
            },
        };
        let latest_event_type = match &event_log {
            Some(log) => if log.len() > 0 {
                copy_opt_string(&log[log.len() - 1].event_type)
            } else {
                None
            },
            None => None,
        };
        let dispatchable = collect_ready_ids(&tranches);
        let wip_tranches = collect_wip_tranches(&tranches);
        let counts = collect_tranche_counts(tranches.as_slice());
        SprintWipSummary {
            sprint_id,
            sprint_state,
            latest_event_type,
            updated_at,
            dispatchable,
            wip_tranches,
            counts,
        }
    }

    /// An equal summary.
    pub fn duplicate(&self) -> (r: SprintWipSummary)
        ensures
            r@ == self@,
    {
        let mut w: Vec<TrancheWipSummary> = Vec::new();
        let mut i: usize = 0;
        while i < self.wip_tranches.len()
            invariant
                i <= self.wip_tranches.len(),
                tranche_views(w@) == tranche_views(self.wip_tranches@).take(i as int),
            decreases self.wip_tranches.len() - i,
        {
            let t = self.wip_tranches[i].duplicate();
            let ghost before = w@;
            w.push(t);
            assert(tranche_views(w@) =~= tranche_views(before).push(t@));
            assert(tranche_views(w@) =~= tranche_views(self.wip_tranches@).take(i + 1));
            i = i + 1;
        }
        assert(tranche_views(self.wip_tranches@).take(i as int) =~= tranche_views(
            self.wip_tranches@,
        ));
        SprintWipSummary {
            sprint_id: self.sprint_id.clone(),
            sprint_state: copy_opt_string(&self.sprint_state),
            latest_event_type: copy_opt_string(&self.latest_event_type),
            updated_at: self.updated_at,
            dispatchable: copy_strings(&self.dispatchable),
            wip_tranches: w,
            counts: self.counts.duplicate(),
        }
    }
}


/// `a` sorts before `b` as `Option<DateTime>` does: nothing before anything.
pub open spec fn opt_before(a: Option<(i64, u32)>, b: Option<(i64, u32)>) -> bool {
    match (a, b) {
        (None, Some(_)) => true,
        (Some(x), Some(y)) => ts_before(x, y),
        _ => false,
    }
}

/// A sprint that is not closed.
pub open spec fn is_active(s: SprintWipSummary) -> bool {
    opt_text(s.sprint_state) != Some("CLOSED"@)
}

/// The sprints keyed by their ids.
pub open spec fn keyed(s: Seq<SprintWipSummary>) -> Seq<(String, SprintWipSummary)> {
    s.map_values(|x: SprintWipSummary| (x.sprint_id, x))
}

/// The sprints in the order of their ids (a stable sort).
pub open spec fn sprints_by_id(s: Seq<SprintWipSummary>) -> Seq<SprintWipSummary> {
    sort_by_key(keyed(s)).map_values(|p: (String, SprintWipSummary)| p.1)
}

/// The ids of the active sprints, in order.
pub open spec fn active_ids(s: Seq<SprintWipSummary>) -> Seq<Seq<char>>
    decreases s.len(),
{
    if s.len() == 0 {
        seq![]
    } else {
        active_ids(s.drop_last()) + if is_active(s.last()) {
            seq![s.last().sprint_id@]
        } else {
            seq![]
        }
    }
}

/// The position of the active sprint updated last; of several, the last one.
pub open spec fn latest_active(s: Seq<SprintWipSummary>) -> Option<int>
    decreases s.len(),
{
    if s.len() == 0 {
        None
    } else {
        let prev = latest_active(s.drop_last());
        let i = s.len() - 1;
        if !is_active(s.last()) {
            prev
        } else {
            match prev {
                None => Some(i),
                Some(p) => if opt_before(opt_ts(s.last().updated_at), opt_ts(s[p].updated_at)) {
                    Some(p)
                } else {
                    Some(i)
                },
            }
        }
    }
}

/// The latest update time among the sprints that record one.
pub open spec fn latest_update(s: Seq<SprintWipSummary>) -> Option<(i64, u32)>
    decreases s.len(),
{
    if s.len() == 0 {
        None
    } else {
        let prev = latest_update(s.drop_last());
        match opt_ts(s.last().updated_at) {
            None => prev,
            Some(t) => match prev {
                None => Some(t),
                Some(m) => if ts_before(t, m) {
                    Some(m)
                } else {
                    Some(t)
                },
            },
        }
    }
}

/// Sorting by id orders the sprints by id and keeps each of them: the result
/// holds the same sprints, each as often as the input does.
pub proof fn lemma_sprints_by_id(s: Seq<SprintWipSummary>)
    ensures
        sprints_by_id(s).len() == s.len(),
        forall|i: int, j: int|
            0 <= i < j < s.len() ==> !text_lt(
                sprints_by_id(s)[j].sprint_id@,
                sprints_by_id(s)[i].sprint_id@,
            ),
        sprints_by_id(s).to_multiset() == s.to_multiset(),
{
    broadcast use vstd::seq_lib::group_to_multiset_ensures;

    let k = keyed(s);
    let sorted = sort_by_key(k);
    let snd = |p: (String, SprintWipSummary)| p.1;
    lemma_sort_by_key(k);
    lemma_map_values_multiset(sorted, k, snd);
    assert(k.map_values(snd) =~= s);
    assert forall|m: int| 0 <= m < sorted.len() implies sorted[m].0 == sorted[m].1.sprint_id by {
        assert(sorted.to_multiset().count(sorted[m]) > 0);
        assert(k.contains(sorted[m]));
        let q = choose|q: int| 0 <= q < k.len() && k[q] == sorted[m];
        assert(k[q] == (s[q].sprint_id, s[q]));
    }
    assert forall|i: int, j: int| 0 <= i < j < s.len() implies !text_lt(
        sprints_by_id(s)[j].sprint_id@,
        sprints_by_id(s)[i].sprint_id@,
    ) by {
        assert(sprints_by_id(s)[i] == sorted[i].1);
        assert(sprints_by_id(s)[j] == sorted[j].1);
        assert(!text_lt(key_of(sorted[j]), key_of(sorted[i])));
    }
}

/// The sprint shown as current: the active one updated last, or else the first.
pub open spec fn current_index(s: Seq<SprintWipSummary>) -> int {
    match latest_active(s) {
        Some(i) => i,
        None => 0,
    }
}

/// The current sprint is active whenever some sprint is, and no active sprint
/// was updated after it.
pub proof fn lemma_latest_active(s: Seq<SprintWipSummary>)
    ensures
        latest_active(s) matches Some(i) ==> 0 <= i < s.len() && is_active(s[i]) && forall|j: int|
            0 <= j < s.len() && is_active(s[j]) ==> !opt_before(
                opt_ts(s[i].updated_at),
                opt_ts(s[j].updated_at),
            ),
        latest_active(s) is None ==> forall|j: int| 0 <= j < s.len() ==> !is_active(s[j]),
    decreases s.len(),
{
    if s.len() > 0 {
        let init = s.drop_last();
        lemma_latest_active(init);
        assert forall|j: int| 0 <= j < init.len() implies init[j] == s[j] by {}
        if is_active(s.last()) {
            if let Some(p) = latest_active(init) {
                let a = opt_ts(s.last().updated_at);
                let b = opt_ts(s[p].updated_at);
                assert forall|j: int| 0 <= j < s.len() && is_active(s[j]) implies !opt_before(
                    opt_ts(s[latest_active(s)->0].updated_at),
                    opt_ts(s[j].updated_at),
                ) by {
                    if j < init.len() {
                        assert(init[j] == s[j]);
                    }
                }
            }
        }
    }
}

impl WorkflowWipStatus {
    /// The workflow progress of a project from the summaries of its sprints;
    /// nothing when there are none. `project_dir_name` is the name of the
    /// project's directory.
    pub fn from_sprints(sprints: Vec<SprintWipSummary>, project_dir_name: Option<String>) -> (r:
        Option<WorkflowWipStatus>)
        ensures
            r is None <==> sprints@.len() == 0,
            r matches Some(st) ==> {
                let sorted = sprints_by_id(sprints@);
                &&& st.sprints@ == sorted
                &&& opt_text(st.schema_version) == Some("2"@)
                &&& st.project_id == project_dir_name
                &&& opt_ts(st.updated_at) == latest_update(sorted)
                &&& st.current_sprint matches Some(c) && c@ == sorted[current_index(sorted)]@
                &&& texts(st.active_sprint_ids@) == active_ids(sorted)
                &&& st.counts.total_sprints == sorted.len()
                &&& st.counts.active_sprints == active_ids(sorted).len()
                &&& st.counts.closed_sprints == sorted.len() - active_ids(sorted).len()
            },
    {
        if sprints.len() == 0 {
            return None;
        }
        let mut sprints = sprints;
        let ghost orig = sprints@;
        let mut pairs: Vec<(String, SprintWipSummary)> = Vec::new();
        let mut i: usize = 0;
        let n = sprints.len();
        assert(orig.skip(0) =~= orig);
        while sprints.len() > 0
            invariant
                i + sprints.len() == orig.len(),
                orig.len() == n,
                sprints@ == orig.skip(i as int),
                pairs@ == keyed(orig.take(i as int)),
            decreases sprints.len(),
        {
            let x = sprints.remove(0);
            let k = x.sprint_id.clone();
            let ghost before = pairs@;
            pairs.push((k, x));
            proof {
                assert(orig.skip(i + 1) =~= orig.skip(i as int).drop_first());
                assert(keyed(orig.take(i + 1)) =~= keyed(orig.take(i as int)).push((k, x)));
            }
            i = i + 1;
        }
        assert(orig.take(n as int) =~= orig);
        let mut sorted_pairs = sort_entries_by_key(pairs);
        let ghost sp = sorted_pairs@;
        proof {
            crate::order::lemma_sort_by_key(keyed(orig));
        }
        let mut sorted: Vec<SprintWipSummary> = Vec::new();
        let mut j: usize = 0;
        while sorted_pairs.len() > 0
            invariant
                j + sorted_pairs.len() == n,
                sp.len() == n,
                sorted_pairs@ == sp.skip(j as int),
                sorted@ == sp.take(j as int).map_values(|p: (String, SprintWipSummary)| p.1),
            decreases sorted_pairs.len(),
        {
            let (_, x) = sorted_pairs.remove(0);
            sorted.push(x);
            proof {
                assert(sp.skip(j + 1) =~= sp.skip(j as int).drop_first());
                assert(sp.take(j + 1).map_values(|p: (String, SprintWipSummary)| p.1) =~= sp.take(
                    j as int,
                ).map_values(|p: (String, SprintWipSummary)| p.1).push(x));
            }
            j = j + 1;
        }
        assert(sp.take(n as int) =~= sp);
        let ghost ss = sorted@;
        assert(ss == sprints_by_id(orig));
        // Active ids, the latest active sprint, and the latest update.
        let mut active: Vec<String> = Vec::new();
        let mut best: Option<usize> = None;
        let mut latest: Option<Timestamp> = None;
        let mut k: usize = 0;
        assert(ss.take(0) =~= Seq::<SprintWipSummary>::empty());
        while k < sorted.len()
            invariant
                k <= sorted.len(),
                sorted@ == ss,
                texts(active@) == active_ids(ss.take(k as int)),
                active@.len() <= k,
                best matches Some(b) ==> b < k,
                latest_active(ss.take(k as int)) == match best {
                    Some(b) => Some(b as int),
                    None => None,
                },
                opt_ts(latest) == latest_update(ss.take(k as int)),
            decreases sorted.len() - k,
        {
            let x = &sorted[k];
            let ghost pre = ss.take(k as int);
            proof {
                assert(ss.take(k + 1).drop_last() =~= pre);
                assert(ss.take(k + 1).last() == *x);
                assert forall|m: int| 0 <= m < pre.len() implies ss.take(k + 1)[m] == pre[m] by {}
            }
            let closed = match &x.sprint_state {
                Some(st) => str_eq(st.as_str(), "CLOSED"),
                None => false,
            };
            if !closed {
                let ghost before = active@;
                active.push(x.sprint_id.clone());
                assert(texts(active@) =~= texts(before) + seq![x.sprint_id@]);
                match best {
                    None => {
                        best = Some(k);
                    },
                    Some(b) => {
                        let keep = match (&x.updated_at, &sorted[b].updated_at) {
                            (None, Some(_)) => true,
                            (Some(a), Some(c)) => a.is_before(c),
                            _ => false,
                        };
                        if !keep {
                            best = Some(k);
                        }
                    },
                }
            } else {
                assert(texts(active@) + seq![] =~= texts(active@));
            }
            match &x.updated_at {
                Some(t) => {
                    match &latest {
                        None => {
                            latest = Some(*t);
                        },
                        Some(m) => {
                            if !t.is_before(m) {
                                latest = Some(*t);
                            }
                        },
                    }
                },
                None => {},
            }
            k = k + 1;
        }
        assert(ss.take(k as int) =~= ss);
        let b = match best {
            Some(b) => b,
            None => 0,
        };
        let current = sorted[b].duplicate();
        let n_active = active.len();
        Some(WorkflowWipStatus {
            schema_version: Some("2".to_owned()),
            project_id: project_dir_name,
            updated_at: latest,
            current_sprint: Some(current),
            active_sprint_ids: active,
            counts: WorkflowWipCounts {
                total_sprints: n,
                active_sprints: n_active,
                closed_sprints: n - n_active,
            },
            sprints: sorted,
        })
    }
}

} // verus!

verus! {

// ---------------------------------------------------------------------------
// What the sprint summaries hold, stated over the tranches and sprints

/// The dispatchable ids of a sprint are the ids of its tranches in state
/// `READY`, in file order, each once: the `READY` tranches that have an id,
/// kept in order, and nothing else.
pub proof fn lemma_ready_ids_are_the_ready_tranches(ts: Seq<WorkflowStateTranche>)
    ensures
        ready_ids(ts) == ts.filter(
            |t: WorkflowStateTranche| opt_text(t.state) == Some("READY"@) && t.id is Some,
        ).map_values(|t: WorkflowStateTranche| t.id->0@),
    decreases ts.len(),
{
    reveal(Seq::filter);
    let p = |t: WorkflowStateTranche| opt_text(t.state) == Some("READY"@) && t.id is Some;
    let f = |t: WorkflowStateTranche| t.id->0@;
    if ts.len() == 0 {
        assert(ts.filter(p).map_values(f) =~= Seq::<Seq<char>>::empty());
    } else {
        lemma_ready_ids_are_the_ready_tranches(ts.drop_last());
        let sub = ts.drop_last().filter(p);
        if p(ts.last()) {
            assert(ts.filter(p) == sub.push(ts.last()));
            assert(sub.push(ts.last()).map_values(f) =~= sub.map_values(f).push(f(ts.last())));
            assert(ready_ids(ts) =~= ready_ids(ts.drop_last()).push(f(ts.last())));
        } else {
            assert(ts.filter(p) == sub);
            assert(ready_ids(ts) =~= ready_ids(ts.drop_last()));
        }
    }
}

/// The work-in-progress tranches of a sprint are its tranches that have an id
/// and whose state is none of `DONE`, `ARCHIVED` and `CANCELLED`, in file
/// order, each summarised by its id, state (`unknown` when missing),
/// dependencies and last event. None of them is in one of those three states.
pub proof fn lemma_wip_views_are_the_unfinished_tranches(ts: Seq<WorkflowStateTranche>)
    ensures
        wip_views(ts) == ts.filter(
            |t: WorkflowStateTranche|
                t.id is Some && opt_text(t.state) != Some("DONE"@) && opt_text(t.state) != Some(
                    "ARCHIVED"@,
                ) && opt_text(t.state) != Some("CANCELLED"@),
        ).map_values(
            |t: WorkflowStateTranche|
                TrancheWipView {
                    id: t.id->0@,
                    state: match t.state {
                        Some(s) => s@,
                        None => "unknown"@,
                    },
                    depends_on: texts(t.depends_on@),
                    last_event: opt_text(t.last_event),
                },
        ),
        forall|i: int|
            0 <= i < wip_views(ts).len() ==> #[trigger] wip_views(ts)[i].state != "DONE"@
                && wip_views(ts)[i].state != "ARCHIVED"@ && wip_views(ts)[i].state != "CANCELLED"@,
    decreases ts.len(),
{
    reveal(Seq::filter);
    let p = |t: WorkflowStateTranche|
        t.id is Some && opt_text(t.state) != Some("DONE"@) && opt_text(t.state) != Some(
            "ARCHIVED"@,
        ) && opt_text(t.state) != Some("CANCELLED"@);
    let f = |t: WorkflowStateTranche|
        TrancheWipView {
            id: t.id->0@,
            state: match t.state {
                Some(s) => s@,
                None => "unknown"@,
            },
            depends_on: texts(t.depends_on@),
            last_event: opt_text(t.last_event),
        };
    reveal_strlit("unknown");
    reveal_strlit("DONE");
    reveal_strlit("ARCHIVED");
    reveal_strlit("CANCELLED");
    assert("unknown"@.len() == 7);
    assert("DONE"@.len() == 4);
    assert("ARCHIVED"@.len() == 8);
    assert("CANCELLED"@.len() == 9);
    if ts.len() == 0 {
        assert(ts.filter(p).map_values(f) =~= Seq::<TrancheWipView>::empty());
    } else {
        lemma_wip_views_are_the_unfinished_tranches(ts.drop_last());
        let t = ts.last();
        let sub = ts.drop_last().filter(p);
        let prev = wip_views(ts.drop_last());
        assert(p(t) == (!is_settled(t.state) && t.id is Some));
        if p(t) {
            assert(ts.filter(p) == sub.push(t));
            assert(sub.push(t).map_values(f) =~= sub.map_values(f).push(f(t)));
            assert(wip_views(ts) =~= prev.push(f(t)));
        } else {
            assert(ts.filter(p) == sub);
            assert(wip_views(ts) =~= prev);
        }
        assert forall|i: int| 0 <= i < wip_views(ts).len() implies #[trigger] wip_views(
            ts,
        )[i].state != "DONE"@ && wip_views(ts)[i].state != "ARCHIVED"@ && wip_views(ts)[i].state
            != "CANCELLED"@ by {
            if i < prev.len() {
                assert(wip_views(ts)[i] == prev[i]);
            }
        }
    }
}

/// The latest update of a list of sprints is the latest of their recorded
/// update times: it is one of them, none comes after it, and there is none
/// exactly when no sprint records one.
pub proof fn lemma_latest_update_is_the_maximum(s: Seq<SprintWipSummary>)
    ensures
        latest_update(s) is None <==> forall|i: int|
            0 <= i < s.len() ==> #[trigger] s[i].updated_at is None,
        latest_update(s) matches Some(m) ==> exists|i: int|
            0 <= i < s.len() && #[trigger] opt_ts(s[i].updated_at) == Some(m),
        latest_update(s) matches Some(m) ==> forall|i: int|
            0 <= i < s.len() && #[trigger] s[i].updated_at is Some ==> !ts_before(
                m,
                s[i].updated_at->0@,
            ),
    decreases s.len(),
{
    if s.len() > 0 {
        let init = s.drop_last();
        lemma_latest_update_is_the_maximum(init);
        assert forall|i: int| 0 <= i < init.len() implies init[i] == s[i] by {}
        let last = s.len() - 1;
        assert(s[last] == s.last());
        match latest_update(s) {
            Some(m) => {
                if latest_update(init) == Some(m) {
                    let i = choose|i: int| 0 <= i < init.len() && #[trigger] opt_ts(init[i].updated_at) == Some(m);
                    assert(opt_ts(s[i].updated_at) == Some(m));
                } else {
                    assert(opt_ts(s[last].updated_at) == Some(m));
                }
                assert forall|i: int| 0 <= i < s.len() && #[trigger] s[i].updated_at is Some implies !ts_before(
                    m,
                    s[i].updated_at->0@,
                ) by {
                    if i < last {
                        assert(init[i] == s[i]);
                        assert(init[i].updated_at is Some);
                    }
                }
            },
            None => {
                assert forall|i: int| 0 <= i < s.len() implies #[trigger] s[i].updated_at is None by {
                    if i < last {
                        assert(init[i] == s[i]);
                    }
                }
            },
        }
        if forall|i: int| 0 <= i < s.len() ==> #[trigger] s[i].updated_at is None {
            assert(s[last].updated_at is None);
            assert forall|i: int| 0 <= i < init.len() implies #[trigger] init[i].updated_at is None by {
                assert(s[i].updated_at is None);
            }
        }
    }
}

} // verus!
