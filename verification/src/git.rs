//! What the repository shows: the last commit, activity since the last push,
//! and who has contributed.
use vstd::prelude::*;
use crate::text::str_eq;
use crate::timestamp::{ts_before, utc_datetime_exists, whole_days_between, Timestamp};

verus! {

/// A commit as STATUS.md reports it.
#[derive(Debug, PartialEq, Eq)]
pub struct CommitInfo {
    pub sha: String,
    pub message: String,
    pub author: String,
    pub timestamp: Timestamp,
}

/// One author's share of the history.
#[derive(Debug, PartialEq, Eq)]
pub struct ContributorInfo {
    pub name: String,
    pub commit_count: usize,
    pub last_active: Timestamp,
}

/// The observable facts of a repository.
#[derive(Debug, PartialEq, Eq)]
pub struct RepoInfo {
    pub branch: String,
    pub last_commit: CommitInfo,
    pub commits_since_push: usize,
    pub last_push: Option<Timestamp>,
    pub days_since_last_commit: i64,
    pub days_since_last_push: Option<i64>,
    pub contributors: Vec<ContributorInfo>,
}

} // verus!

verus! {

/// An author's tally: name, number of commits, latest commit time.
pub type AuthorTally = (Seq<char>, nat, (i64, u32));

/// The position of `name` in a tally.
pub open spec fn tally_index(t: Seq<AuthorTally>, name: Seq<char>) -> Option<int>
    decreases t.len(),
{
    if t.len() == 0 {
        None
    } else if t.last().0 == name {
        Some(t.len() - 1)
    } else {
        tally_index(t.drop_last(), name)
    }
}

/// The commits tallied by author, authors in order of first appearance: each
/// author's commit count and latest commit time.
pub open spec fn tally_authors(commits: Seq<(String, Timestamp)>) -> Seq<AuthorTally>
    decreases commits.len(),
{
    if commits.len() == 0 {
        seq![]
    } else {
        let prev = tally_authors(commits.drop_last());
        let (n, t) = commits.last();
        match tally_index(prev, n@) {
            Some(p) => prev.update(
                p,
                (
                    n@,
                    prev[p].1 + 1,
                    if ts_before(prev[p].2, t@) {
                        t@
                    } else {
                        prev[p].2
                    },
                ),
            ),
            None => prev.push((n@, 1, t@)),
        }
    }
}

/// `s` with `x` placed after every entry whose count is at least its own.
pub open spec fn insert_by_count(s: Seq<AuthorTally>, x: AuthorTally) -> Seq<AuthorTally>
    decreases s.len(),
{
    if s.len() == 0 {
        seq![x]
    } else if s.last().1 < x.1 {
        insert_by_count(s.drop_last(), x).push(s.last())
    } else {
        s.push(x)
    }
}

/// The stable sort of a tally by commit count, most commits first.
pub open spec fn sort_by_count(s: Seq<AuthorTally>) -> Seq<AuthorTally>
    decreases s.len(),
{
    if s.len() == 0 {
        seq![]
    } else {
        insert_by_count(sort_by_count(s.drop_last()), s.last())
    }
}

/// The view of a contributor.
pub open spec fn contributor_view(c: ContributorInfo) -> AuthorTally {
    (c.name@, c.commit_count as nat, c.last_active@)
}

/// The contributors of a history: commits tallied by author, most active first.
pub open spec fn contributors_of(commits: Seq<(String, Timestamp)>) -> Seq<AuthorTally> {
    sort_by_count(tally_authors(commits))
}

/// The view of a stored tally entry.
pub open spec fn entry_tally(e: (String, usize, Timestamp)) -> AuthorTally {
    (e.0@, e.1 as nat, e.2@)
}

proof fn lemma_tally_index(t: Seq<AuthorTally>, name: Seq<char>)
    ensures
        tally_index(t, name) matches Some(p) ==> 0 <= p < t.len() && t[p].0 == name,
        tally_index(t, name) is None ==> forall|j: int| 0 <= j < t.len() ==> t[j].0 != name,
    decreases t.len(),
{
    if t.len() > 0 && t.last().0 != name {
        lemma_tally_index(t.drop_last(), name);
        assert forall|j: int| 0 <= j < t.len() - 1 implies t[j] == t.drop_last()[j] by {}
    }
}

/// Distinct names in a tally.
pub open spec fn distinct_names(t: Seq<AuthorTally>) -> bool {
    forall|i: int, j: int| 0 <= i < j < t.len() ==> t[i].0 != t[j].0
}

proof fn lemma_tally_authors(commits: Seq<(String, Timestamp)>)
    ensures
        distinct_names(tally_authors(commits)),
        forall|j: int|
            0 <= j < tally_authors(commits).len() ==> tally_authors(commits)[j].1 <= commits.len(),
        tally_authors(commits).len() <= commits.len(),
    decreases commits.len(),
{
    if commits.len() > 0 {
        let prev = tally_authors(commits.drop_last());
        lemma_tally_authors(commits.drop_last());
        lemma_tally_index(prev, commits.last().0@);
    }
}

proof fn lemma_tally_index_unique(t: Seq<AuthorTally>, name: Seq<char>, p: int)
    requires
        distinct_names(t),
        0 <= p < t.len(),
        t[p].0 == name,
    ensures
        tally_index(t, name) == Some(p),
{
    lemma_tally_index(t, name);
    if let Some(q) = tally_index(t, name) {
        if q != p {
            if q < p {
                assert(t[q].0 != t[p].0);
            } else {
                assert(t[p].0 != t[q].0);
            }
        }
    }
}

fn tally_exec(commits: &Vec<(String, Timestamp)>) -> (r: Vec<(String, usize, Timestamp)>)
    ensures
        r@.map_values(|e: (String, usize, Timestamp)| entry_tally(e)) == tally_authors(commits@),
{
    let mut t: Vec<(String, usize, Timestamp)> = Vec::new();
    let mut i: usize = 0;
    assert(commits@.take(0) =~= Seq::<(String, Timestamp)>::empty());
    while i < commits.len()
        invariant
            i <= commits.len(),
            t@.map_values(|e: (String, usize, Timestamp)| entry_tally(e)) == tally_authors(
                commits@.take(i as int),
            ),
        decreases commits.len() - i,
    {
        let ghost pre = commits@.take(i as int);
        let ghost tv = t@.map_values(|e: (String, usize, Timestamp)| entry_tally(e));
        proof {
            assert(commits@.take(i + 1).drop_last() =~= pre);
            assert(commits@.take(i + 1).last() == commits@[i as int]);
            lemma_tally_authors(pre);
        }
        let name = &commits[i].0;
        let ts = commits[i].1;
        let mut j: usize = 0;
        let mut found: Option<usize> = None;
        while j < t.len()
            invariant_except_break
                found is None,
            invariant
                j <= t.len(),
                tv == t@.map_values(|e: (String, usize, Timestamp)| entry_tally(e)),
                forall|m: int| 0 <= m < j ==> tv[m].0 != name@,
            ensures
                found matches Some(p) ==> p < t.len() && tv[p as int].0 == name@,
                found is None ==> forall|m: int| 0 <= m < t.len() ==> tv[m].0 != name@,
            decreases t.len() - j,
        {
            if str_eq(t[j].0.as_str(), name.as_str()) {
                found = Some(j);
                break;
            }
            j = j + 1;
        }
        match found {
            Some(p) => {
                proof {
                    lemma_tally_index_unique(tv, name@, p as int);
                    assert(tv[p as int].1 <= i);
                }
                let old_count = t[p].1;
                let old_ts = t[p].2;
                let latest = if old_ts.is_before(&ts) {
                    ts
                } else {
                    old_ts
                };
                let k = t[p].0.clone();
                t.set(p, (k, old_count + 1, latest));
                proof {
                    assert(t@.map_values(|e: (String, usize, Timestamp)| entry_tally(e)) =~= tv.update(
                        p as int,
                        entry_tally((k, (old_count + 1) as usize, latest)),
                    ));
                }
            },
            None => {
                proof {
                    lemma_tally_index(tv, name@);
                }
                let ghost before = t@;
                t.push((name.clone(), 1, ts));
                proof {
                    assert(t@.map_values(|e: (String, usize, Timestamp)| entry_tally(e)) =~= tv.push(
                        (name@, 1nat, ts@),
                    ));
                }
            },
        }
        i = i + 1;
    }
    assert(commits@.take(i as int) =~= commits@);
    t
}

fn insert_contributor(s: &mut Vec<ContributorInfo>, x: ContributorInfo)
    ensures
        final(s)@.map_values(|c: ContributorInfo| contributor_view(c)) == insert_by_count(
            old(s)@.map_values(|c: ContributorInfo| contributor_view(c)),
            contributor_view(x),
        ),
{
    let ghost orig = s@.map_values(|c: ContributorInfo| contributor_view(c));
    let ghost xv = contributor_view(x);
    let mut j = s.len();
    assert(orig.take(j as int) =~= orig);
    assert(orig.skip(j as int) =~= Seq::<AuthorTally>::empty());
    assert(insert_by_count(orig, xv) + Seq::<AuthorTally>::empty() =~= insert_by_count(orig, xv));
    while j > 0 && s[j - 1].commit_count < x.commit_count
        invariant
            j <= s.len(),
            orig == s@.map_values(|c: ContributorInfo| contributor_view(c)),
            xv == contributor_view(x),
            insert_by_count(orig, xv) == insert_by_count(orig.take(j as int), xv) + orig.skip(
                j as int,
            ),
        decreases j,
    {
        proof {
            let t = orig.take(j as int);
            assert(t.drop_last() =~= orig.take(j - 1));
            assert(t.last() == orig[j - 1]);
            assert(orig.skip(j - 1) =~= seq![orig[j - 1]] + orig.skip(j as int));
            assert(insert_by_count(t, xv) == insert_by_count(t.drop_last(), xv).push(t.last()));
            assert(insert_by_count(t.drop_last(), xv).push(t.last()) + orig.skip(j as int)
                =~= insert_by_count(t.drop_last(), xv) + orig.skip(j - 1));
        }
        j = j - 1;
    }
    proof {
        let t = orig.take(j as int);
        if j == 0 {
            assert(t =~= Seq::<AuthorTally>::empty());
        }
        assert(insert_by_count(t, xv) == t.push(xv));
    }
    let ghost sv = s@;
    s.insert(j, x);
    assert(s@ == sv.insert(j as int, x));
    assert(s@.map_values(|c: ContributorInfo| contributor_view(c)) =~= orig.take(j as int).push(xv)
        + orig.skip(j as int));
}

/// The contributors of a history given as (author, commit time) pairs: one
/// entry per author with its number of commits and its latest commit time,
/// most commits first; authors with equal counts in order of first appearance.
pub fn tally_contributors(commits: &Vec<(String, Timestamp)>) -> (r: Vec<ContributorInfo>)
    ensures
        r@.map_values(|c: ContributorInfo| contributor_view(c)) == contributors_of(commits@),
{
    let t = tally_exec(commits);
    proof {
        lemma_tally_authors(commits@);
    }
    let ghost tv = t@.map_values(|e: (String, usize, Timestamp)| entry_tally(e));
    let mut t = t;
    let n = t.len();
    let mut r: Vec<ContributorInfo> = Vec::new();
    let mut i: usize = 0;
    assert(tv.take(0) =~= Seq::<AuthorTally>::empty());
    while t.len() > 0
        invariant
            i + t.len() == n,
            tv.len() == n,
            t@.map_values(|e: (String, usize, Timestamp)| entry_tally(e)) == tv.skip(i as int),
            r@.map_values(|c: ContributorInfo| contributor_view(c)) == sort_by_count(
                tv.take(i as int),
            ),
        decreases t.len(),
    {
        let ghost tt = t@;
        let (name, count, last_active) = t.remove(0);
        proof {
            assert(tt[0] == (name, count, last_active));
            assert(tv.skip(i as int)[0] == entry_tally((name, count, last_active)));
            assert(tv.take(i + 1).drop_last() =~= tv.take(i as int));
            assert(tv.take(i + 1).last() == tv[i as int]);
            assert(t@ =~= tt.drop_first());
            assert(tt.drop_first().map_values(|e: (String, usize, Timestamp)| entry_tally(e))
                =~= tt.map_values(|e: (String, usize, Timestamp)| entry_tally(e)).drop_first());
            assert(t@.map_values(|e: (String, usize, Timestamp)| entry_tally(e)) =~= tv.skip(
                i + 1,
            ));
        }
        insert_contributor(&mut r, ContributorInfo { name, commit_count: count, last_active });
        i = i + 1;
    }
    assert(tv.take(i as int) =~= tv);
    r
}

/// The instant of a commit time given in whole seconds since the epoch; `now`
/// where `chrono` cannot represent it.
pub fn git_time_to_utc(seconds: i64, now: Timestamp) -> (r: Timestamp)
    ensures
        utc_datetime_exists(seconds, 0) ==> r@ == (seconds, 0u32),
        !utc_datetime_exists(seconds, 0) ==> r == now,
{
    match Timestamp::from_parts(seconds, 0) {
        Some(t) => t,
        None => now,
    }
}

/// The reference that holds the remote's tip of `branch`.
pub open spec fn remote_ref_text(branch: Seq<char>) -> Seq<char> {
    "refs/remotes/origin/"@ + branch
}

/// `refs/remotes/origin/<branch>`.
pub fn remote_ref_name(branch: &str) -> (r: String)
    ensures
        r@ == remote_ref_text(branch@),
{
    let mut r = "refs/remotes/origin/".to_owned();
    crate::text::push_str(&mut r, branch);
    r
}

impl RepoInfo {
    /// The facts of a repository at `now`: the days since the last commit and
    /// since the last push are counted from `now`.
    pub fn new(
        branch: String,
        last_commit: CommitInfo,
        commits_since_push: usize,
        last_push: Option<Timestamp>,
        now: Timestamp,
        contributors: Vec<ContributorInfo>,
    ) -> (r: RepoInfo)
        ensures
            r.branch == branch,
            r.last_commit == last_commit,
            r.commits_since_push == commits_since_push,
            r.last_push == last_push,
            r.days_since_last_commit == whole_days_between(
                now@.0,
                now@.1,
                last_commit.timestamp@.0,
                last_commit.timestamp@.1,
            ),
            r.days_since_last_push == match last_push {
                Some(t) => Some(whole_days_between(now@.0, now@.1, t@.0, t@.1)),
                None => None,
            },
            r.contributors == contributors,
    {
        let days_since_last_commit = now.days_since(&last_commit.timestamp);
        let days_since_last_push = match &last_push {
            Some(t) => Some(now.days_since(t)),
            None => None,
        };
        RepoInfo {
            branch,
            last_commit,
            commits_since_push,
            last_push,
            days_since_last_commit,
            days_since_last_push,
            contributors,
        }
    }
}

} // verus!

verus! {

// ---------------------------------------------------------------------------
// Laws of the contributor tally

/// The number of commits by `name`.
pub open spec fn commits_by(commits: Seq<(String, Timestamp)>, name: Seq<char>) -> nat
    decreases commits.len(),
{
    if commits.len() == 0 {
        0
    } else {
        commits_by(commits.drop_last(), name) + if commits.last().0@ == name {
            1nat
        } else {
            0nat
        }
    }
}

/// The latest time of a commit by `name`; none without such a commit.
pub open spec fn latest_by(commits: Seq<(String, Timestamp)>, name: Seq<char>) -> Option<(i64, u32)>
    decreases commits.len(),
{
    if commits.len() == 0 {
        None
    } else {
        let prev = latest_by(commits.drop_last(), name);
        let t = commits.last().1@;
        if commits.last().0@ == name {
            match prev {
                Some(p) => Some(if ts_before(p, t) {
                    t
                } else {
                    p
                }),
                None => Some(t),
            }
        } else {
            prev
        }
    }
}

/// Commit counts never increase along `t`.
pub open spec fn most_commits_first(t: Seq<AuthorTally>) -> bool {
    forall|i: int, j: int| 0 <= i < j < t.len() ==> t[i].1 >= t[j].1
}

/// `t` records each author's commits and latest commit time in `commits`.
pub open spec fn tallies(t: Seq<AuthorTally>, commits: Seq<(String, Timestamp)>) -> bool {
    forall|i: int|
        0 <= i < t.len() ==> #[trigger] t[i].1 == commits_by(commits, t[i].0) && latest_by(
            commits,
            t[i].0,
        ) == Some(t[i].2)
}

proof fn lemma_tally_index_update(t: Seq<AuthorTally>, p: int, y: AuthorTally, name: Seq<char>)
    requires
        0 <= p < t.len(),
        y.0 == t[p].0,
    ensures
        tally_index(t.update(p, y), name) == tally_index(t, name),
    decreases t.len(),
{
    let u = t.update(p, y);
    if p < t.len() - 1 {
        assert(u.drop_last() =~= t.drop_last().update(p, y));
        lemma_tally_index_update(t.drop_last(), p, y, name);
    } else {
        assert(u.drop_last() =~= t.drop_last());
    }
}

proof fn lemma_tally_correct(commits: Seq<(String, Timestamp)>)
    ensures
        tallies(tally_authors(commits), commits),
        forall|name: Seq<char>|
            #![trigger commits_by(commits, name)]
            tally_index(tally_authors(commits), name) is None ==> commits_by(commits, name) == 0,
    decreases commits.len(),
{
    if commits.len() > 0 {
        let c0 = commits.drop_last();
        let prev = tally_authors(c0);
        lemma_tally_correct(c0);
        lemma_tally_authors(c0);
        let (n, t) = commits.last();
        let cur = tally_authors(commits);
        lemma_tally_index(prev, n@);
        match tally_index(prev, n@) {
            Some(p) => {
                let y = (n@, prev[p].1 + 1, if ts_before(prev[p].2, t@) {
                    t@
                } else {
                    prev[p].2
                });
                assert(cur == prev.update(p, y));
                assert forall|i: int| 0 <= i < cur.len() implies #[trigger] cur[i].1 == commits_by(
                    commits,
                    cur[i].0,
                ) && latest_by(commits, cur[i].0) == Some(cur[i].2) by {
                    if i == p {
                        assert(prev[p].1 == commits_by(c0, prev[p].0));
                    } else {
                        assert(cur[i] == prev[i]);
                        assert(prev[i].1 == commits_by(c0, prev[i].0));
                        lemma_tally_index_unique(prev, prev[i].0, i);
                    }
                }
                assert forall|name: Seq<char>| #[trigger]
                    tally_index(cur, name) is None implies commits_by(commits, name) == 0 by {
                    lemma_tally_index_update(prev, p, y, name);
                    assert(tally_index(prev, name) is None);
                    assert(name != n@);
                    assert(commits_by(c0, name) == 0);
                    assert(commits.last().0@ != name);
                    assert(commits_by(commits, name) == commits_by(c0, name));
                }
            },
            None => {
                assert(commits_by(c0, n@) == 0);
                assert forall|i: int| 0 <= i < cur.len() implies #[trigger] cur[i].1 == commits_by(
                    commits,
                    cur[i].0,
                ) && latest_by(commits, cur[i].0) == Some(cur[i].2) by {
                    if i < prev.len() {
                        assert(cur[i] == prev[i]);
                        assert(prev[i].1 == commits_by(c0, prev[i].0));
                    } else {
                        lemma_commits_by_zero(c0, n@);
                    }
                }
                assert forall|name: Seq<char>| #[trigger]
                    tally_index(cur, name) is None implies commits_by(commits, name) == 0 by {
                    assert(cur == prev.push((n@, 1nat, t@)));
                    assert(cur.drop_last() =~= prev);
                    assert(name != n@);
                    assert(tally_index(prev, name) is None);
                    assert(commits_by(c0, name) == 0);
                    assert(commits.last().0@ != name);
                }
            },
        }
    }
}

proof fn lemma_commits_by_zero(commits: Seq<(String, Timestamp)>, name: Seq<char>)
    requires
        commits_by(commits, name) == 0,
    ensures
        latest_by(commits, name) is None,
    decreases commits.len(),
{
    if commits.len() > 0 {
        lemma_commits_by_zero(commits.drop_last(), name);
    }
}

proof fn lemma_insert_by_count(s: Seq<AuthorTally>, x: AuthorTally)
    ensures
        insert_by_count(s, x).len() == s.len() + 1,
        forall|e: AuthorTally|
            #![trigger insert_by_count(s, x).contains(e)]
            #![trigger s.contains(e)]
            insert_by_count(s, x).contains(e) <==> (s.contains(e) || e == x),
        most_commits_first(s) ==> most_commits_first(insert_by_count(s, x)),
        distinct_names(s) && (forall|i: int| 0 <= i < s.len() ==> s[i].0 != x.0) ==> distinct_names(
            insert_by_count(s, x),
        ),
    decreases s.len(),
{
    let r = insert_by_count(s, x);
    if s.len() == 0 {
        assert(r =~= seq![x]);
        assert forall|e: AuthorTally| r.contains(e) <==> (s.contains(e) || e == x) by {
            if r.contains(e) {
                assert(r[0] == x);
            }
            if e == x {
                assert(r[0] == e);
            }
        }
    } else if s.last().1 < x.1 {
        let s0 = s.drop_last();
        let r0 = insert_by_count(s0, x);
        lemma_insert_by_count(s0, x);
        assert(r == r0.push(s.last()));
        assert forall|e: AuthorTally| r.contains(e) <==> (s.contains(e) || e == x) by {
            if r.contains(e) {
                let k = choose|k: int| 0 <= k < r.len() && r[k] == e;
                if k < r0.len() {
                    assert(r0[k] == e);
                    assert(r0.contains(e));
                    if s0.contains(e) {
                        let m = choose|m: int| 0 <= m < s0.len() && s0[m] == e;
                        assert(s[m] == e);
                    }
                } else {
                    assert(s[s.len() - 1] == e);
                }
            }
            if s.contains(e) {
                let m = choose|m: int| 0 <= m < s.len() && s[m] == e;
                if m < s.len() - 1 {
                    assert(s0[m] == e);
                    assert(s0.contains(e));
                    let k = choose|k: int| 0 <= k < r0.len() && r0[k] == e;
                    assert(r[k] == e);
                } else {
                    assert(r[r.len() - 1] == e);
                }
            }
            if e == x {
                assert(r0.contains(x));
                let k = choose|k: int| 0 <= k < r0.len() && r0[k] == x;
                assert(r[k] == e);
            }
        }
        if most_commits_first(s) {
            assert forall|i: int, j: int| 0 <= i < j < r.len() implies r[i].1 >= r[j].1 by {
                if j == r.len() - 1 {
                    assert(r0.contains(r[i]));
                    if s0.contains(r[i]) {
                        let m = choose|m: int| 0 <= m < s0.len() && s0[m] == r[i];
                        assert(s[m] == s0[m]);
                    }
                } else {
                    assert(r[i] == r0[i] && r[j] == r0[j]);
                }
            }
        }
        if distinct_names(s) && (forall|i: int| 0 <= i < s.len() ==> s[i].0 != x.0) {
            assert forall|i: int| 0 <= i < s0.len() implies s0[i].0 != x.0 by {
                assert(s0[i] == s[i]);
            }
            assert forall|i: int, j: int| 0 <= i < j < r.len() implies r[i].0 != r[j].0 by {
                if j == r.len() - 1 {
                    assert(r0.contains(r[i]));
                    if s0.contains(r[i]) {
                        let m = choose|m: int| 0 <= m < s0.len() && s0[m] == r[i];
                        assert(s[m] == s0[m]);
                    } else {
                        assert(s[s.len() - 1].0 != x.0);
                    }
                } else {
                    assert(r[i] == r0[i] && r[j] == r0[j]);
                }
            }
        }
    } else {
        assert(r == s.push(x));
        assert forall|e: AuthorTally| r.contains(e) <==> (s.contains(e) || e == x) by {
            if r.contains(e) {
                let k = choose|k: int| 0 <= k < r.len() && r[k] == e;
                if k < s.len() {
                    assert(s[k] == e);
                }
            }
            if s.contains(e) {
                let m = choose|m: int| 0 <= m < s.len() && s[m] == e;
                assert(r[m] == e);
            }
            if e == x {
                assert(r[s.len() as int] == e);
            }
        }
        if most_commits_first(s) {
            assert forall|i: int, j: int| 0 <= i < j < r.len() implies r[i].1 >= r[j].1 by {
                if j == r.len() - 1 {
                    assert(r[i] == s[i]);
                    assert(s[i].1 >= s[s.len() - 1].1 || i == s.len() - 1);
                }
            }
        }
    }
}

proof fn lemma_sort_by_count(s: Seq<AuthorTally>)
    ensures
        sort_by_count(s).len() == s.len(),
        forall|e: AuthorTally|
            #![trigger sort_by_count(s).contains(e)]
            #![trigger s.contains(e)]
            sort_by_count(s).contains(e) <==> s.contains(e),
        most_commits_first(sort_by_count(s)),
        distinct_names(s) ==> distinct_names(sort_by_count(s)),
    decreases s.len(),
{
    if s.len() > 0 {
        let s0 = s.drop_last();
        let r0 = sort_by_count(s0);
        lemma_sort_by_count(s0);
        lemma_insert_by_count(r0, s.last());
        assert forall|e: AuthorTally| sort_by_count(s).contains(e) <==> s.contains(e) by {
            if s0.contains(e) {
                let m = choose|m: int| 0 <= m < s0.len() && s0[m] == e;
                assert(s[m] == e);
            }
            if s.contains(e) {
                let m = choose|m: int| 0 <= m < s.len() && s[m] == e;
                if m < s.len() - 1 {
                    assert(s0[m] == e);
                }
            }
        }
        if distinct_names(s) {
            assert(distinct_names(s0)) by {
                assert forall|i: int, j: int| 0 <= i < j < s0.len() implies s0[i].0 != s0[j].0 by {
                    assert(s0[i] == s[i] && s0[j] == s[j]);
                }
            }
            assert forall|i: int| 0 <= i < r0.len() implies r0[i].0 != s.last().0 by {
                assert(r0.contains(r0[i]));
                let m = choose|m: int| 0 <= m < s0.len() && s0[m] == r0[i];
                assert(s[m] == r0[i]);
            }
        }
    } else {
        assert(sort_by_count(s) =~= s);
    }
}

/// The contributors of a history list each author once, most commits first,
/// with the number of that author's commits and the time of the latest; every
/// author of a commit is listed.
pub proof fn lemma_contributors_summarize_history(commits: Seq<(String, Timestamp)>)
    ensures
        distinct_names(contributors_of(commits)),
        most_commits_first(contributors_of(commits)),
        tallies(contributors_of(commits), commits),
        forall|k: int|
            #![trigger commits[k]]
            0 <= k < commits.len() ==> exists|i: int|
                #![trigger contributors_of(commits)[i]]
                0 <= i < contributors_of(commits).len() && contributors_of(commits)[i].0
                    == commits[k].0@,
{
    let t = tally_authors(commits);
    let r = contributors_of(commits);
    lemma_tally_authors(commits);
    lemma_tally_correct(commits);
    lemma_sort_by_count(t);
    assert forall|i: int| 0 <= i < r.len() implies #[trigger] r[i].1 == commits_by(commits, r[i].0)
        && latest_by(commits, r[i].0) == Some(r[i].2) by {
        assert(r.contains(r[i]));
        let m = choose|m: int| 0 <= m < t.len() && t[m] == r[i];
        assert(t[m].1 == commits_by(commits, t[m].0));
    }
    assert forall|k: int| #![trigger commits[k]] 0 <= k < commits.len() implies exists|i: int|
        #![trigger r[i]] 0 <= i < r.len() && r[i].0 == commits[k].0@ by {
        let name = commits[k].0@;
        lemma_commits_by_positive(commits, k);
        lemma_tally_index(t, name);
        let p = tally_index(t, name)->0;
        assert(t.contains(t[p]));
        let i = choose|i: int| 0 <= i < r.len() && r[i] == t[p];
        assert(r[i].0 == name);
    }
}

proof fn lemma_commits_by_positive(commits: Seq<(String, Timestamp)>, k: int)
    requires
        0 <= k < commits.len(),
    ensures
        commits_by(commits, commits[k].0@) > 0,
    decreases commits.len(),
{
    if k < commits.len() - 1 {
        lemma_commits_by_positive(commits.drop_last(), k);
        assert(commits.drop_last()[k] == commits[k]);
    }
}

} // verus!
