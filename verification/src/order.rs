//! The order of strings, and a stable sort by a text key.
use vstd::prelude::*;

verus! {

/// `a` sorts strictly before `b` in the order of `str`: lexicographic by code point.
pub open spec fn text_lt(a: Seq<char>, b: Seq<char>) -> bool
    decreases a.len(),
{
    if a.len() == 0 {
        b.len() > 0
    } else if b.len() == 0 {
        false
    } else if a[0] != b[0] {
        a[0] < b[0]
    } else {
        text_lt(a.drop_first(), b.drop_first())
    }
}

pub proof fn lemma_text_lt_irreflexive(a: Seq<char>)
    ensures
        !text_lt(a, a),
    decreases a.len(),
{
    if a.len() > 0 {
        lemma_text_lt_irreflexive(a.drop_first());
    }
}

pub proof fn lemma_text_lt_transitive(a: Seq<char>, b: Seq<char>, c: Seq<char>)
    requires
        text_lt(a, b),
        text_lt(b, c),
    ensures
        text_lt(a, c),
    decreases a.len(),
{
    if a.len() > 0 && b.len() > 0 && c.len() > 0 {
        if a[0] == b[0] && b[0] == c[0] {
            lemma_text_lt_transitive(a.drop_first(), b.drop_first(), c.drop_first());
        }
    }
}

pub proof fn lemma_text_lt_total(a: Seq<char>, b: Seq<char>)
    ensures
        a == b || text_lt(a, b) || text_lt(b, a),
    decreases a.len(),
{
    if a.len() > 0 && b.len() > 0 {
        if a[0] == b[0] {
            lemma_text_lt_total(a.drop_first(), b.drop_first());
            if a.drop_first() == b.drop_first() {
                assert(a =~= seq![a[0]] + a.drop_first());
                assert(b =~= seq![b[0]] + b.drop_first());
            }
        }
    } else if a.len() == 0 && b.len() == 0 {
        assert(a =~= b);
    }
}

pub proof fn lemma_text_lt_asymmetric(a: Seq<char>, b: Seq<char>)
    requires
        text_lt(a, b),
    ensures
        !text_lt(b, a),
{
    if text_lt(b, a) {
        lemma_text_lt_transitive(a, b, a);
        lemma_text_lt_irreflexive(a);
    }
}

/// Whether `a` sorts strictly before `b`.
pub fn text_less(a: &str, b: &str) -> (r: bool)
    ensures
        r == text_lt(a@, b@),
{
    let av = crate::text::chars_of(a);
    let bv = crate::text::chars_of(b);
    let mut i: usize = 0;
    assert(av@.skip(0) =~= av@);
    assert(bv@.skip(0) =~= bv@);
    while i < av.len() && i < bv.len() && av[i] == bv[i]
        invariant
            i <= av.len(),
            i <= bv.len(),
            forall|j: int| 0 <= j < i ==> av@[j] == bv@[j],
            text_lt(a@, b@) == text_lt(av@.skip(i as int), bv@.skip(i as int)),
        decreases av.len() - i,
    {
        assert(av@.skip(i + 1) =~= av@.skip(i as int).drop_first());
        assert(bv@.skip(i + 1) =~= bv@.skip(i as int).drop_first());
        i = i + 1;
    }
    if i == av.len() {
        i < bv.len()
    } else if i == bv.len() {
        false
    } else {
        av[i] < bv[i]
    }
}

/// The key of an entry.
pub open spec fn key_of<T>(e: (String, T)) -> Seq<char> {
    e.0@
}

/// `s` with `x` inserted after every entry whose key is not greater than its own,
/// searching from the end.
pub open spec fn insert_by_key<T>(s: Seq<(String, T)>, x: (String, T)) -> Seq<(String, T)>
    decreases s.len(),
{
    if s.len() == 0 {
        seq![x]
    } else if text_lt(key_of(x), key_of(s.last())) {
        insert_by_key(s.drop_last(), x).push(s.last())
    } else {
        s.push(x)
    }
}

/// The stable sort of `s` by key (insertion sort).
pub open spec fn sort_by_key<T>(s: Seq<(String, T)>) -> Seq<(String, T)>
    decreases s.len(),
{
    if s.len() == 0 {
        seq![]
    } else {
        insert_by_key(sort_by_key(s.drop_last()), s.last())
    }
}

/// Keys never decrease along `s`.
pub open spec fn sorted_by_key<T>(s: Seq<(String, T)>) -> bool {
    forall|i: int, j: int| 0 <= i < j < s.len() ==> !text_lt(key_of(s[j]), key_of(s[i]))
}

proof fn lemma_insert_by_key<T>(s: Seq<(String, T)>, x: (String, T))
    requires
        sorted_by_key(s),
    ensures
        sorted_by_key(insert_by_key(s, x)),
        insert_by_key(s, x).to_multiset() == s.to_multiset().insert(x),
        insert_by_key(s, x).len() == s.len() + 1,
        forall|e: (String, T)|
            insert_by_key(s, x).contains(e) ==> (s.contains(e) || e == x),
    decreases s.len(),
{
    broadcast use vstd::seq_lib::group_to_multiset_ensures;

    if s.len() == 0 {
        assert(seq![x] =~= Seq::<(String, T)>::empty().push(x));
    } else if text_lt(key_of(x), key_of(s.last())) {
        let init = s.drop_last();
        lemma_insert_by_key(init, x);
        let r = insert_by_key(s, x);
        let ri = insert_by_key(init, x);
        assert(s =~= init.push(s.last()));
        assert forall|i: int, j: int| 0 <= i < j < r.len() implies !text_lt(
            key_of(r[j]),
            key_of(r[i]),
        ) by {
            if j == r.len() - 1 {
                assert(r[j] == s.last());
                assert(ri.contains(ri[i]));
                if ri[i] == x {
                    lemma_text_lt_asymmetric(key_of(x), key_of(s.last()));
                } else {
                    assert(init.contains(ri[i]));
                    let k = choose|k: int| 0 <= k < init.len() && init[k] == ri[i];
                    assert(s[k] == init[k]);
                    assert(s[s.len() - 1] == s.last());
                }
            } else {
                assert(r[i] == ri[i]);
                assert(r[j] == ri[j]);
            }
        }
        assert forall|e: (String, T)| r.contains(e) implies (s.contains(e) || e == x) by {
            let k = choose|k: int| 0 <= k < r.len() && r[k] == e;
            if k < r.len() - 1 {
                assert(ri[k] == e);
                assert(ri.contains(e));
                if e != x {
                    assert(init.contains(e));
                    let m = choose|m: int| 0 <= m < init.len() && init[m] == e;
                    assert(s[m] == init[m]);
                    assert(s.contains(e));
                }
            } else {
                assert(s[s.len() - 1] == e);
                assert(s.contains(e));
            }
        }
    } else {
        let r = s.push(x);
        assert forall|i: int, j: int| 0 <= i < j < r.len() implies !text_lt(
            key_of(r[j]),
            key_of(r[i]),
        ) by {
            if j == r.len() - 1 && i < s.len() - 1 {
                assert(!text_lt(key_of(s.last()), key_of(s[i])));
                lemma_text_lt_total(key_of(x), key_of(s.last()));
                if text_lt(key_of(x), key_of(s[i])) {
                    if key_of(x) == key_of(s.last()) {
                    } else {
                        lemma_text_lt_transitive(key_of(s.last()), key_of(x), key_of(s[i]));
                    }
                }
            }
        }
        assert forall|e: (String, T)| r.contains(e) implies (s.contains(e) || e == x) by {
            let k = choose|k: int| 0 <= k < r.len() && r[k] == e;
            if k < s.len() {
                assert(s[k] == e);
            }
        }
    }
}

/// The stable sort by key is sorted and holds the same entries as its input.
pub proof fn lemma_sort_by_key<T>(s: Seq<(String, T)>)
    ensures
        sorted_by_key(sort_by_key(s)),
        sort_by_key(s).to_multiset() == s.to_multiset(),
        sort_by_key(s).len() == s.len(),
    decreases s.len(),
{
    broadcast use vstd::seq_lib::group_to_multiset_ensures;

    if s.len() > 0 {
        lemma_sort_by_key(s.drop_last());
        lemma_insert_by_key(sort_by_key(s.drop_last()), s.last());
        assert(s =~= s.drop_last().push(s.last()));
    }
}

/// Mapping two sequences that hold the same elements gives sequences that
/// hold the same elements.
pub proof fn lemma_map_values_multiset<A, B>(a: Seq<A>, b: Seq<A>, f: spec_fn(A) -> B)
    requires
        a.to_multiset() == b.to_multiset(),
    ensures
        a.map_values(f).to_multiset() == b.map_values(f).to_multiset(),
    decreases a.len(),
{
    broadcast use vstd::seq_lib::group_to_multiset_ensures;
    broadcast use vstd::multiset::group_multiset_axioms;

    if a.len() == 0 {
        assert(a.to_multiset().len() == 0);
        assert(b.to_multiset().len() == b.len());
        assert(a.map_values(f) =~= Seq::<B>::empty());
        assert(b.map_values(f) =~= Seq::<B>::empty());
    } else {
        let x = a.last();
        let a0 = a.drop_last();
        assert(a =~= a0.push(x));
        assert(a.to_multiset().count(x) > 0);
        assert(b.contains(x));
        let i = choose|i: int| 0 <= i < b.len() && b[i] == x;
        let b0 = b.remove(i);
        assert(b0.to_multiset() =~= a0.to_multiset());
        lemma_map_values_multiset(a0, b0, f);
        let fb = b.map_values(f);
        assert(a.map_values(f) =~= a0.map_values(f).push(f(x)));
        assert(fb.remove(i) =~= b0.map_values(f));
        assert(fb[i] == f(x));
        assert(fb.to_multiset().count(f(x)) > 0);
        assert(fb.to_multiset() =~= fb.remove(i).to_multiset().insert(f(x)));
    }
}

/// `s` with `x` inserted at the place that `insert_by_key` picks.
fn insert_entry<T>(s: &mut Vec<(String, T)>, x: (String, T))
    ensures
        final(s)@ == insert_by_key(old(s)@, x),
{
    let ghost orig = s@;
    let mut j = s.len();
    assert(orig.take(j as int) =~= orig);
    assert(orig.skip(j as int) =~= Seq::<(String, T)>::empty());
    assert(insert_by_key(orig, x) + Seq::<(String, T)>::empty() =~= insert_by_key(orig, x));
    while j > 0 && text_less(x.0.as_str(), s[j - 1].0.as_str())
        invariant
            j <= s.len(),
            s@ == orig,
            insert_by_key(orig, x) == insert_by_key(orig.take(j as int), x) + orig.skip(j as int),
        decreases j,
    {
        proof {
            let t = orig.take(j as int);
            assert(t.drop_last() =~= orig.take(j - 1));
            assert(t.last() == orig[j - 1]);
            assert(orig.skip(j - 1) =~= seq![orig[j - 1]] + orig.skip(j as int));
            assert(insert_by_key(t, x) == insert_by_key(t.drop_last(), x).push(t.last()));
            assert(insert_by_key(t.drop_last(), x).push(t.last()) + orig.skip(j as int)
                =~= insert_by_key(t.drop_last(), x) + orig.skip(j - 1));
        }
        j = j - 1;
    }
    proof {
        let t = orig.take(j as int);
        if j == 0 {
            assert(t =~= Seq::<(String, T)>::empty());
        }
        assert(insert_by_key(t, x) == t.push(x));
        assert(orig.take(j as int).push(x) + orig.skip(j as int) =~= orig.insert(j as int, x));
    }
    s.insert(j, x);
}

/// The entries of `v` in the stable sort by key.
pub fn sort_entries_by_key<T>(v: Vec<(String, T)>) -> (r: Vec<(String, T)>)
    ensures
        r@ == sort_by_key(v@),
{
    let mut v = v;
    let ghost orig = v@;
    let n = v.len();
    assert(orig.len() == n);
    let mut r: Vec<(String, T)> = Vec::new();
    let mut i: usize = 0;
    assert(orig.skip(0) =~= orig);
    assert(orig.take(0) =~= Seq::<(String, T)>::empty());
    while v.len() > 0
        invariant
            i + v.len() == orig.len(),
            orig.len() <= usize::MAX,
            v@ == orig.skip(i as int),
            r@ == sort_by_key(orig.take(i as int)),
        decreases v.len(),
    {
        let x = v.remove(0);
        proof {
            assert(orig.take(i + 1).drop_last() =~= orig.take(i as int));
            assert(orig.take(i + 1).last() == x);
            assert(orig.skip(i + 1) =~= orig.skip(i as int).drop_first());
        }
        insert_entry(&mut r, x);
        i = i + 1;
    }
    assert(orig.take(i as int) =~= orig);
    r
}

} // verus!
