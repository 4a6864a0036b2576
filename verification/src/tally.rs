//! A tally of counts keyed by text, kept in key order with each key once.
use vstd::prelude::*;
use crate::order::{text_less, text_lt, lemma_text_lt_irreflexive, lemma_text_lt_transitive};

verus! {

/// The count recorded for `k` in a list of (key, count) entries: the first match.
pub open spec fn lookup(s: Seq<(Seq<char>, usize)>, k: Seq<char>) -> Option<usize>
    decreases s.len(),
{
    if s.len() == 0 {
        None
    } else if s[0].0 == k {
        Some(s[0].1)
    } else {
        lookup(s.drop_first(), k)
    }
}

/// Keys strictly increase along the entries.
pub open spec fn keys_ascending(s: Seq<(Seq<char>, usize)>) -> bool {
    forall|i: int, j: int| 0 <= i < j < s.len() ==> text_lt(s[i].0, s[j].0)
}

/// The view of stored entries.
pub open spec fn entry_views(s: Seq<(String, usize)>) -> Seq<(Seq<char>, usize)> {
    s.map_values(|e: (String, usize)| (e.0@, e.1))
}

pub proof fn lemma_lookup(s: Seq<(Seq<char>, usize)>, k: Seq<char>)
    ensures
        lookup(s, k) matches Some(v) ==> exists|i: int|
            0 <= i < s.len() && s[i] == (k, v) && forall|j: int| 0 <= j < i ==> s[j].0 != k,
        lookup(s, k) is None ==> forall|i: int| 0 <= i < s.len() ==> s[i].0 != k,
    decreases s.len(),
{
    if s.len() > 0 {
        lemma_lookup(s.drop_first(), k);
        if s[0].0 != k {
            if let Some(v) = lookup(s.drop_first(), k) {
                let i = choose|i: int|
                    0 <= i < s.drop_first().len() && s.drop_first()[i] == (k, v) && forall|j: int|
                        0 <= j < i ==> s.drop_first()[j].0 != k;
                assert(s[i + 1] == (k, v));
                assert forall|j: int| 0 <= j < i + 1 implies s[j].0 != k by {
                    if j > 0 {
                        assert(s[j] == s.drop_first()[j - 1]);
                    }
                }
            } else {
                assert forall|i: int| 0 <= i < s.len() implies s[i].0 != k by {
                    if i > 0 {
                        assert(s[i] == s.drop_first()[i - 1]);
                    }
                }
            }
        } else {
            assert(s[0] == (k, s[0].1));
        }
    }
}

/// In entries with distinct keys, `lookup` finds the entry that holds the key.
pub proof fn lemma_lookup_at(s: Seq<(Seq<char>, usize)>, i: int)
    requires
        keys_ascending(s),
        0 <= i < s.len(),
    ensures
        lookup(s, s[i].0) == Some(s[i].1),
{
    lemma_lookup(s, s[i].0);
    if let Some(v) = lookup(s, s[i].0) {
        let m = choose|m: int|
            0 <= m < s.len() && s[m] == (s[i].0, v) && forall|j: int| 0 <= j < m ==> s[j].0 != s[i].0;
        if m < i {
            assert(text_lt(s[m].0, s[i].0));
            lemma_text_lt_irreflexive(s[i].0);
        } else if i < m {
            assert(s[i].0 != s[i].0);
        }
    }
}

/// Entries with distinct keys: `lookup` is `Some` exactly at the keys present.
pub proof fn lemma_lookup_absent(s: Seq<(Seq<char>, usize)>, k: Seq<char>)
    requires
        forall|i: int| 0 <= i < s.len() ==> s[i].0 != k,
    ensures
        lookup(s, k) is None,
{
    lemma_lookup(s, k);
}

/// Two key-ordered tallies that give the same count for every key are equal.
pub proof fn lemma_tally_determined(s1: Seq<(Seq<char>, usize)>, s2: Seq<(Seq<char>, usize)>)
    requires
        keys_ascending(s1),
        keys_ascending(s2),
        forall|k: Seq<char>| #![trigger lookup(s1, k)] lookup(s1, k) == lookup(s2, k),
    ensures
        s1 == s2,
    decreases s1.len() + s2.len(),
{
    if s1.len() == 0 || s2.len() == 0 {
        if s2.len() > 0 {
            lemma_lookup_at(s2, 0);
            assert(lookup(s1, s2[0].0) == lookup(s2, s2[0].0));
        }
        if s1.len() > 0 {
            lemma_lookup_at(s1, 0);
        }
        assert(s1 =~= s2);
    } else {
        let k1 = s1[0].0;
        let k2 = s2[0].0;
        lemma_lookup_at(s1, 0);
        lemma_lookup_at(s2, 0);
        assert(lookup(s1, k1) == lookup(s2, k1));
        assert(lookup(s1, k2) == lookup(s2, k2));
        lemma_lookup(s2, k1);
        lemma_lookup(s1, k2);
        let i = choose|i: int| 0 <= i < s2.len() && s2[i] == (k1, s1[0].1) && forall|j: int| 0 <= j < i ==> s2[j].0 != k1;
        let j = choose|j: int| 0 <= j < s1.len() && s1[j] == (k2, s2[0].1) && forall|m: int| 0 <= m < j ==> s1[m].0 != k2;
        if i > 0 && j > 0 {
            assert(text_lt(k2, k1));
            assert(text_lt(k1, k2));
            lemma_text_lt_transitive(k1, k2, k1);
            lemma_text_lt_irreflexive(k1);
        }
        assert(k1 == k2);
        assert(s1[0] == s2[0]);
        let t1 = s1.drop_first();
        let t2 = s2.drop_first();
        assert forall|k: Seq<char>| #![trigger lookup(t1, k)] lookup(t1, k) == lookup(t2, k) by {
            if k == k1 {
                assert forall|m: int| 0 <= m < t1.len() implies t1[m].0 != k by {
                    assert(text_lt(s1[0].0, s1[m + 1].0));
                    lemma_text_lt_irreflexive(k);
                }
                assert forall|m: int| 0 <= m < t2.len() implies t2[m].0 != k by {
                    assert(text_lt(s2[0].0, s2[m + 1].0));
                    lemma_text_lt_irreflexive(k);
                }
                lemma_lookup_absent(t1, k);
                lemma_lookup_absent(t2, k);
            } else {
                assert(lookup(s1, k) == lookup(s2, k));
            }
        }
        lemma_tally_determined(t1, t2);
        assert(s1 =~= seq![s1[0]] + t1);
        assert(s2 =~= seq![s2[0]] + t2);
    }
}

/// Counts keyed by text, in key order, each key once (the role of a
/// `BTreeMap<String, usize>`).
#[derive(Debug, PartialEq, Eq)]
pub struct TrancheCounts {
    entries: Vec<(String, usize)>,
}

impl View for TrancheCounts {
    type V = Seq<(Seq<char>, usize)>;

    closed spec fn view(&self) -> Seq<(Seq<char>, usize)> {
        entry_views(self.entries@)
    }
}

impl TrancheCounts {
    #[verifier::type_invariant]
    spec fn ascending(self) -> bool {
        keys_ascending(entry_views(self.entries@))
    }

    /// No counts.
    pub fn new() -> (r: TrancheCounts)
        ensures
            r@ == Seq::<(Seq<char>, usize)>::empty(),
    {
        let r = TrancheCounts { entries: Vec::new() };
        assert(entry_views(r.entries@) =~= Seq::<(Seq<char>, usize)>::empty());
        r
    }

    /// The count recorded for `key`.
    pub fn get(&self, key: &str) -> (r: Option<usize>)
        ensures
            r == lookup(self@, key@),
    {
        let mut i: usize = 0;
        let ghost s = self@;
        assert(s.skip(0) =~= s);
        while i < self.entries.len()
            invariant
                i <= self.entries.len(),
                s == entry_views(self.entries@),
                lookup(s, key@) == lookup(s.skip(i as int), key@),
            decreases self.entries.len() - i,
        {
            if crate::text::str_eq(self.entries[i].0.as_str(), key) {
                return Some(self.entries[i].1);
            }
            assert(s.skip(i + 1) =~= s.skip(i as int).drop_first());
            i = i + 1;
        }
        None
    }

    /// Equal counts.
    pub fn duplicate(&self) -> (r: TrancheCounts)
        ensures
            r@ == self@,
    {
        proof {
            use_type_invariant(self);
        }
        let mut e: Vec<(String, usize)> = Vec::new();
        let mut i: usize = 0;
        while i < self.entries.len()
            invariant
                i <= self.entries.len(),
                entry_views(e@) == entry_views(self.entries@).take(i as int),
            decreases self.entries.len() - i,
        {
            let k = self.entries[i].0.clone();
            let ghost before = e@;
            e.push((k, self.entries[i].1));
            assert(e@ == before.push((k, self.entries@[i as int].1)));
            assert(entry_views(e@) =~= entry_views(before).push((k@, self.entries@[i as int].1)));
            assert(entry_views(e@) =~= entry_views(self.entries@).take(i + 1));
            i = i + 1;
        }
        assert(entry_views(self.entries@).take(i as int) =~= entry_views(self.entries@));
        TrancheCounts { entries: e }
    }

    /// The entries, in key order.
    pub fn entries(&self) -> (r: &Vec<(String, usize)>)
        ensures
            entry_views(r@) == self@,
            keys_ascending(self@),
    {
        proof {
            use_type_invariant(self);
        }
        &self.entries
    }

    /// Records `value` for `key`, replacing what was recorded before.
    pub fn set(&mut self, key: &str, value: usize)
        ensures
            forall|q: Seq<char>|
                #![trigger lookup(final(self)@, q)]
                lookup(final(self)@, q) == if q == key@ {
                    Some(value)
                } else {
                    lookup(old(self)@, q)
                },
            keys_ascending(final(self)@),
    {
        proof {
            use_type_invariant(&*self);
        }
        let mut e: Vec<(String, usize)> = Vec::new();
        std::mem::swap(&mut e, &mut self.entries);
        let ghost old_e = entry_views(e@);
        let mut i: usize = 0;
        while i < e.len() && text_less(e[i].0.as_str(), key)
            invariant
                i <= e.len(),
                old_e == entry_views(e@),
                keys_ascending(old_e),
                forall|j: int| 0 <= j < i ==> text_lt(old_e[j].0, key@),
            decreases e.len() - i,
        {
            i = i + 1;
        }
        let ghost new_e: Seq<(Seq<char>, usize)>;
        if i < e.len() && crate::text::str_eq(e[i].0.as_str(), key) {
            let k = e[i].0.clone();
            e.set(i, (k, value));
            proof {
                new_e = entry_views(e@);
                assert(new_e =~= old_e.update(i as int, (key@, value)));
                assert forall|a: int, b: int| 0 <= a < b < new_e.len() implies text_lt(
                    new_e[a].0,
                    new_e[b].0,
                ) by {
                    assert(new_e[a].0 == old_e[a].0);
                    assert(new_e[b].0 == old_e[b].0);
                }
            }
        } else {
            let k = key.to_owned();
            e.insert(i, (k, value));
            proof {
                new_e = entry_views(e@);
                assert(new_e =~= old_e.insert(i as int, (key@, value)));
                if i < old_e.len() {
                    crate::order::lemma_text_lt_total(key@, old_e[i as int].0);
                    assert(text_lt(key@, old_e[i as int].0));
                }
                assert forall|a: int, b: int| 0 <= a < b < new_e.len() implies text_lt(
                    new_e[a].0,
                    new_e[b].0,
                ) by {
                    if b < i {
                        assert(new_e[a] == old_e[a]);
                        assert(new_e[b] == old_e[b]);
                    } else if b == i {
                        assert(new_e[a] == old_e[a]);
                    } else if a > i {
                        assert(new_e[a] == old_e[a - 1]);
                        assert(new_e[b] == old_e[b - 1]);
                    } else {
                        assert(new_e[b] == old_e[b - 1]);
                        if b - 1 > i {
                            assert(text_lt(old_e[i as int].0, old_e[b - 1].0));
                            lemma_text_lt_transitive(key@, old_e[i as int].0, old_e[b - 1].0);
                        }
                        assert(text_lt(key@, new_e[b].0));
                        if a < i {
                            assert(new_e[a] == old_e[a]);
                            lemma_text_lt_transitive(old_e[a].0, key@, old_e[b - 1].0);
                        }
                    }
                }
            }
        }
        proof {
            assert forall|q: Seq<char>| #![trigger lookup(new_e, q)]
                lookup(new_e, q) == if q == key@ {
                    Some(value)
                } else {
                    lookup(old_e, q)
                } by {
                lemma_lookup(old_e, q);
                lemma_lookup(new_e, q);
                if q == key@ {
                    lemma_lookup_at(new_e, i as int);
                } else {
                    if let Some(v) = lookup(old_e, q) {
                        let m = choose|m: int|
                            0 <= m < old_e.len() && old_e[m] == (q, v) && forall|j: int|
                                0 <= j < m ==> old_e[j].0 != q;
                        if new_e.len() > old_e.len() && m >= i {
                            assert(new_e[m + 1] == old_e[m]);
                            lemma_lookup_at(new_e, m + 1);
                        } else {
                            assert(new_e[m] == old_e[m]);
                            lemma_lookup_at(new_e, m);
                        }
                    } else {
                        assert forall|j: int| 0 <= j < new_e.len() implies new_e[j].0 != q by {
                            if new_e.len() > old_e.len() {
                                if j > i {
                                    assert(new_e[j] == old_e[j - 1]);
                                } else if j < i {
                                    assert(new_e[j] == old_e[j]);
                                }
                            } else if j != i {
                                assert(new_e[j] == old_e[j]);
                            }
                        }
                        lemma_lookup_absent(new_e, q);
                    }
                }
            }
        }
        self.entries = e;
        proof {
            use_type_invariant(&*self);
        }
    }

    /// Adds `amount` to the count of `key`, starting from zero when it has none.
    pub fn add(&mut self, key: &str, amount: usize)
        requires
            lookup(old(self)@, key@) matches Some(v) ==> v + amount <= usize::MAX,
        ensures
            forall|q: Seq<char>|
                #![trigger lookup(final(self)@, q)]
                lookup(final(self)@, q) == if q == key@ {
                    Some(
                        (match lookup(old(self)@, key@) {
                            Some(v) => v + amount,
                            None => amount as int,
                        }) as usize,
                    )
                } else {
                    lookup(old(self)@, q)
                },
            keys_ascending(final(self)@),
    {
        let prev = self.get(key);
        let n = match prev {
            Some(v) => v + amount,
            None => amount,
        };
        self.set(key, n);
    }
}

} // verus!
