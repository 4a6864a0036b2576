//! What is written into the STATUS.md frontmatter is what `rapstat status`
//! reads back out of it.
use vstd::prelude::*;
use crate::status_model::{frontmatter_text, rfc, status_text, trigger_text, StatusDoc, Trigger, RAPSTAT_VERSION};
use crate::status_view::{delimiter, fields, split_document};
use crate::text::{
    char_index, find, find_from, is_whitespace, lemma_char_index_unique, lemma_find_from, lines,
    occurs_at, split_once, strip_cr, trim, trim_end, trim_start,
};

verus! {

/// `s` holds no line break.
pub open spec fn single_line(s: Seq<char>) -> bool {
    forall|i: int| 0 <= i < s.len() ==> s[i] != '\n'
}

/// `s` ends with three dashes.
pub open spec fn ends_with_dashes(s: Seq<char>) -> bool {
    s.len() >= 3 && s[s.len() - 1] == '-' && s[s.len() - 2] == '-' && s[s.len() - 3] == '-'
}

/// A frontmatter value that reads back unchanged: one line, without
/// surrounding whitespace, not ending in `---`.
pub open spec fn plain_value(v: Seq<char>) -> bool {
    single_line(v) && trim(v) == v && !ends_with_dashes(v)
}

/// The frontmatter fields of a document: key and value, in order.
pub open spec fn frontmatter_fields(d: StatusDoc) -> Seq<(Seq<char>, Seq<char>)> {
    seq![
        ("rapstat_version"@, RAPSTAT_VERSION@),
        ("project"@, d.project@),
        ("machine"@, d.machine@),
        ("trigger"@, trigger_text(d.trigger)),
        ("updated_at"@, rfc(d.updated_at)),
        ("branch"@, d.repo.branch@),
    ]
}

/// No frontmatter delimiter occurs in `s`.
pub open spec fn no_delimiter(s: Seq<char>) -> bool {
    forall|j: int| !occurs_at(s, delimiter(), j)
}

proof fn lemma_delimiter()
    ensures
        delimiter() == seq!['-', '-', '-', '\n'],
{
    reveal_strlit("---\n");
    assert(delimiter() =~= seq!['-', '-', '-', '\n']);
}

/// A window of `s` at `j` that matches the delimiter.
proof fn lemma_occurs_chars(s: Seq<char>, j: int)
    requires
        occurs_at(s, delimiter(), j),
    ensures
        0 <= j && j + 4 <= s.len(),
        s[j] == '-',
        s[j + 1] == '-',
        s[j + 2] == '-',
        s[j + 3] == '\n',
{
    lemma_delimiter();
    let w = s.subrange(j, j + 4);
    assert(w[0] == s[j]);
    assert(w[1] == s[j + 1]);
    assert(w[2] == s[j + 2]);
    assert(w[3] == s[j + 3]);
}

/// A line `key value \n`, where the key ends in a space, holds no delimiter.
proof fn lemma_line_no_delimiter(k: Seq<char>, v: Seq<char>)
    requires
        k.len() >= 1,
        k.last() == ' ',
        single_line(k),
        single_line(v),
        !ends_with_dashes(v),
    ensures
        no_delimiter(k + v + seq!['\n']),
{
    let l = k + v + seq!['\n'];
    assert forall|j: int| !occurs_at(l, delimiter(), j) by {
        if occurs_at(l, delimiter(), j) {
            lemma_occurs_chars(l, j);
            let p = j + 3;
            if p < k.len() {
                assert(l[p] == k[p]);
            } else if p < k.len() + v.len() {
                assert(l[p] == v[p - k.len()]);
            } else {
                assert(p == l.len() - 1);
                let n = v.len();
                if n >= 3 {
                    assert(l[j] == v[n - 3]);
                    assert(l[j + 1] == v[n - 2]);
                    assert(l[j + 2] == v[n - 1]);
                } else if n == 2 {
                    assert(l[j] == k[k.len() - 1]);
                } else if n == 1 {
                    assert(l[j + 1] == k[k.len() - 1]);
                } else {
                    assert(l[j + 2] == k[k.len() - 1]);
                }
            }
        }
    }
}

/// Joining after a line break creates no delimiter.
proof fn lemma_join_no_delimiter(a: Seq<char>, b: Seq<char>)
    requires
        no_delimiter(a),
        no_delimiter(b),
        a.len() > 0,
        a.last() == '\n',
    ensures
        no_delimiter(a + b),
{
    let s = a + b;
    lemma_delimiter();
    assert forall|j: int| !occurs_at(s, delimiter(), j) by {
        if occurs_at(s, delimiter(), j) {
            lemma_occurs_chars(s, j);
            if j + 4 <= a.len() {
                assert(s.subrange(j, j + 4) =~= a.subrange(j, j + 4));
                assert(occurs_at(a, delimiter(), j));
            } else if j >= a.len() {
                assert(s.subrange(j, j + 4) =~= b.subrange(j - a.len(), j - a.len() + 4));
                assert(occurs_at(b, delimiter(), j - a.len()));
            } else {
                let o = a.len() - 1 - j;
                assert(s[j + o] == a[a.len() - 1]);
            }
        }
    }
}

/// The first occurrence is the one that nothing precedes.
proof fn lemma_find_is(s: Seq<char>, p: Seq<char>, k: int)
    requires
        occurs_at(s, p, k),
        forall|j: int| 0 <= j < k ==> !occurs_at(s, p, j),
    ensures
        find(s, p) == Some(k),
{
    lemma_find_from(s, p, 0);
    match find_from(s, p, 0) {
        Some(m) => {
            if m < k {
                assert(!occurs_at(s, p, m));
            } else if m > k {
                assert(!occurs_at(s, p, k));
            }
        },
        None => {
            assert(!occurs_at(s, p, k));
        },
    }
}

/// The frontmatter body between the delimiters.
pub open spec fn frontmatter_inner(d: StatusDoc) -> Seq<char> {
    "rapstat_version: "@ + RAPSTAT_VERSION@ + "\n"@ + "project: "@ + d.project@ + "\n"@
        + "machine: "@ + d.machine@ + "\n"@ + "trigger: "@ + trigger_text(d.trigger) + "\n"@
        + "updated_at: "@ + rfc(d.updated_at) + "\n"@ + "branch: "@ + d.repo.branch@ + "\n"@
}

proof fn lemma_literals()
    ensures
        "\n"@ == seq!['\n'],
        "rapstat_version: "@ == "rapstat_version"@ + seq![':', ' '],
        "project: "@ == "project"@ + seq![':', ' '],
        "machine: "@ == "machine"@ + seq![':', ' '],
        "trigger: "@ == "trigger"@ + seq![':', ' '],
        "updated_at: "@ == "updated_at"@ + seq![':', ' '],
        "branch: "@ == "branch"@ + seq![':', ' '],
        RAPSTAT_VERSION@ == seq!['1', '.', '0'],
        "commit"@ == seq!['c', 'o', 'm', 'm', 'i', 't'],
        "push"@ == seq!['p', 'u', 's', 'h'],
        "scan"@ == seq!['s', 'c', 'a', 'n'],
{
    reveal_strlit("\n");
    reveal_strlit("rapstat_version: ");
    reveal_strlit("rapstat_version");
    reveal_strlit("project: ");
    reveal_strlit("project");
    reveal_strlit("machine: ");
    reveal_strlit("machine");
    reveal_strlit("trigger: ");
    reveal_strlit("trigger");
    reveal_strlit("updated_at: ");
    reveal_strlit("updated_at");
    reveal_strlit("branch: ");
    reveal_strlit("branch");
    reveal_strlit("1.0");
    reveal_strlit("commit");
    reveal_strlit("push");
    reveal_strlit("scan");
    assert("rapstat_version: "@ =~= "rapstat_version"@ + seq![':', ' ']);
    assert("project: "@ =~= "project"@ + seq![':', ' ']);
    assert("machine: "@ =~= "machine"@ + seq![':', ' ']);
    assert("trigger: "@ =~= "trigger"@ + seq![':', ' ']);
    assert("updated_at: "@ =~= "updated_at"@ + seq![':', ' ']);
    assert("branch: "@ =~= "branch"@ + seq![':', ' ']);
    assert(RAPSTAT_VERSION@ =~= seq!['1', '.', '0']);
    assert("commit"@ =~= seq!['c', 'o', 'm', 'm', 'i', 't']);
    assert("push"@ =~= seq!['p', 'u', 's', 'h']);
    assert("scan"@ =~= seq!['s', 'c', 'a', 'n']);
}


/// A key followed by `": "`.
pub open spec fn key_prefix(name: Seq<char>) -> Seq<char> {
    name + seq![':', ' ']
}

/// A frontmatter key: one word without colon or whitespace.
pub open spec fn plain_key(name: Seq<char>) -> bool {
    name.len() > 0 && forall|i: int|
        0 <= i < name.len() ==> name[i] != ':' && name[i] != '\n' && !is_whitespace(name[i])
}

proof fn lemma_keys_plain()
    ensures
        plain_key("rapstat_version"@),
        plain_key("project"@),
        plain_key("machine"@),
        plain_key("trigger"@),
        plain_key("updated_at"@),
        plain_key("branch"@),
{
    reveal_strlit("rapstat_version");
    reveal_strlit("project");
    reveal_strlit("machine");
    reveal_strlit("trigger");
    reveal_strlit("updated_at");
    reveal_strlit("branch");
}

proof fn lemma_trim_start_len(s: Seq<char>)
    ensures
        trim_start(s).len() <= s.len(),
        trim_start(s).len() == s.len() ==> trim_start(s) == s,
    decreases s.len(),
{
    if s.len() > 0 && is_whitespace(s[0]) {
        lemma_trim_start_len(s.drop_first());
    }
}

proof fn lemma_trim_end_len(s: Seq<char>)
    ensures
        trim_end(s).len() <= s.len(),
        trim_end(s).len() == s.len() ==> trim_end(s) == s,
    decreases s.len(),
{
    if s.len() > 0 && is_whitespace(s.last()) {
        lemma_trim_end_len(s.drop_last());
    }
}

/// A text that trimming leaves alone has no whitespace at its ends.
proof fn lemma_trimmed_ends(v: Seq<char>)
    requires
        trim(v) == v,
        v.len() > 0,
    ensures
        !is_whitespace(v[0]),
        !is_whitespace(v.last()),
        trim_start(v) == v,
        trim_end(v) == v,
{
    lemma_trim_start_len(v);
    lemma_trim_end_len(trim_start(v));
    if is_whitespace(v[0]) {
        lemma_trim_start_len(v.drop_first());
    }
    assert(trim_start(v) == v);
    if is_whitespace(v.last()) {
        lemma_trim_end_len(v.drop_last());
    }
}

/// A plain key trims to itself.
proof fn lemma_plain_key_trim(name: Seq<char>)
    requires
        plain_key(name),
    ensures
        trim(name) == name,
{
    assert(trim_start(name) == name);
    assert(trim_end(name) == name);
}

/// The field of a line `name: v`.
proof fn lemma_field_line(name: Seq<char>, v: Seq<char>)
    requires
        plain_key(name),
        trim(v) == v,
    ensures
        split_once(key_prefix(name) + v, ':') == Some((name, seq![' '] + v)),
        trim(name) == name,
        trim(seq![' '] + v) == v,
{
    let l = key_prefix(name) + v;
    lemma_char_index_unique(l, ':', Some(name.len() as int));
    assert(l.take(name.len() as int) =~= name);
    assert(l.skip((name.len() + 1) as int) =~= seq![' '] + v);
    lemma_plain_key_trim(name);
    let w = seq![' '] + v;
    assert(w.drop_first() =~= v);
    assert(trim_start(w) == trim_start(v));
    if v.len() > 0 {
        lemma_trimmed_ends(v);
    } else {
        assert(v =~= Seq::<char>::empty());
    }
}

/// The lines of `x`, a line break, then `rest`.
proof fn lemma_lines_cons(x: Seq<char>, rest: Seq<char>)
    requires
        single_line(x),
    ensures
        lines(x + seq!['\n'] + rest) == seq![strip_cr(x)] + lines(rest),
{
    let s = x + seq!['\n'] + rest;
    lemma_char_index_unique(s, '\n', Some(x.len() as int));
    assert(s.take(x.len() as int) =~= x);
    assert(s.skip((x.len() + 1) as int) =~= rest);
}

/// The lines of a single line.
proof fn lemma_lines_single(y: Seq<char>)
    requires
        single_line(y),
        y.len() > 0,
    ensures
        lines(y) == seq![y],
{
    lemma_char_index_unique(y, '\n', None);
}

proof fn lemma_fields_push(ls: Seq<Seq<char>>, l: Seq<char>)
    ensures
        fields(ls.push(l)) == fields(ls) + match split_once(l, ':') {
            Some((k, v)) => seq![(trim(k), trim(v))],
            None => seq![],
        },
{
    assert(ls.push(l).drop_last() =~= ls);
}

/// A line of the frontmatter: a plain key, then a plain value.
proof fn lemma_field_line_props(name: Seq<char>, v: Seq<char>)
    requires
        plain_key(name),
        plain_value(v),
    ensures
        single_line(key_prefix(name) + v),
        no_delimiter(key_prefix(name) + v + seq!['\n']),
        strip_cr(key_prefix(name) + v) == key_prefix(name) + v,
        split_once(key_prefix(name) + v, ':') == Some((name, seq![' '] + v)),
        trim(name) == name,
        trim(seq![' '] + v) == v,
{
    let k = key_prefix(name);
    assert forall|i: int| 0 <= i < (k + v).len() implies (k + v)[i] != '\n' by {
        if i < k.len() {
            if i < name.len() {
                assert(k[i] == name[i]);
            }
        } else {
            assert((k + v)[i] == v[i - k.len()]);
        }
    }
    assert forall|i: int| 0 <= i < k.len() implies k[i] != '\n' by {
        if i < name.len() {
            assert(k[i] == name[i]);
        }
    }
    lemma_line_no_delimiter(k, v);
    if v.len() > 0 {
        lemma_trimmed_ends(v);
        assert((k + v).last() == v.last());
        assert(is_whitespace('\r'));
    } else {
        assert((k + v).last() == ' ');
    }
    lemma_field_line(name, v);
}


/// The frontmatter line `name: v`.
pub open spec fn field_line(name: Seq<char>, v: Seq<char>) -> Seq<char> {
    key_prefix(name) + v
}

/// The frontmatter values of a document, in order.
pub open spec fn values(d: StatusDoc) -> Seq<Seq<char>> {
    seq![
        RAPSTAT_VERSION@,
        d.project@,
        d.machine@,
        trigger_text(d.trigger),
        rfc(d.updated_at),
        d.repo.branch@,
    ]
}

/// The frontmatter keys, in order.
pub open spec fn keys() -> Seq<Seq<char>> {
    seq!["rapstat_version"@, "project"@, "machine"@, "trigger"@, "updated_at"@, "branch"@]
}

/// The frontmatter lines with their breaks, from the `i`-th on.
pub open spec fn lines_from(d: StatusDoc, i: int) -> Seq<char>
    decreases 6 - i,
{
    if i >= 6 || i < 0 {
        seq![]
    } else {
        field_line(keys()[i], values(d)[i]) + seq!['\n'] + lines_from(d, i + 1)
    }
}

/// Every value of the document reads back unchanged.
pub open spec fn plain_values(d: StatusDoc) -> bool {
    forall|i: int| 0 <= i < 6 ==> plain_value(#[trigger] values(d)[i])
}

proof fn lemma_fixed_values(d: StatusDoc)
    ensures
        plain_value(RAPSTAT_VERSION@),
        plain_value(trigger_text(d.trigger)),
        forall|i: int| 0 <= i < 6 ==> plain_key(#[trigger] keys()[i]),
{
    lemma_literals();
    lemma_keys_plain();
    let v = RAPSTAT_VERSION@;
    assert(trim_start(v) == v);
    assert(trim_end(v) == v);
    let t = trigger_text(d.trigger);
    assert(trim_start(t) == t);
    assert(trim_end(t) == t);
}

proof fn lemma_inner_is_lines(d: StatusDoc)
    ensures
        frontmatter_inner(d) == lines_from(d, 0),
{
    lemma_literals();
    reveal_with_fuel(lines_from, 7);
    assert(frontmatter_inner(d) =~= lines_from(d, 0));
}

proof fn lemma_lines_from_no_delimiter(d: StatusDoc, i: int)
    requires
        0 <= i <= 6,
        plain_values(d),
    ensures
        no_delimiter(lines_from(d, i)),
        i < 6 ==> lines_from(d, i).len() > 0 && lines_from(d, i).last() == '\n',
    decreases 6 - i,
{
    if i < 6 {
        lemma_fixed_values(d);
        lemma_lines_from_no_delimiter(d, i + 1);
        let k = keys()[i];
        let v = values(d)[i];
        lemma_field_line_props(k, v);
        let l = field_line(k, v) + seq!['\n'];
        let rest = lines_from(d, i + 1);
        if rest.len() == 0 {
            assert(l + rest =~= l);
        } else {
            lemma_join_no_delimiter(l, rest);
        }
        assert(lines_from(d, i) == l + rest);
        if rest.len() > 0 {
            assert((l + rest).last() == rest.last());
        }
    } else {
        lemma_delimiter();
        assert forall|j: int| !occurs_at(lines_from(d, i), delimiter(), j) by {}
    }
}

/// After a delimiter-free block that ends in a line break, the first
/// delimiter is one that follows the block directly.
proof fn lemma_no_early_delimiter(inner: Seq<char>, after: Seq<char>)
    requires
        no_delimiter(inner),
        inner.len() > 0,
        inner.last() == '\n',
        occurs_at(after, delimiter(), 0),
    ensures
        find(inner + after, delimiter()) == Some(inner.len() as int),
{
    let dl = delimiter();
    lemma_delimiter();
    let rest = inner + after;
    assert(rest.subrange(inner.len() as int, (inner.len() + 4) as int) =~= after.subrange(0, 4));
    assert forall|j: int| 0 <= j < inner.len() implies !occurs_at(rest, dl, j) by {
        if occurs_at(rest, dl, j) {
            lemma_occurs_chars(rest, j);
            if j + 4 <= inner.len() {
                assert(rest.subrange(j, j + 4) =~= inner.subrange(j, j + 4));
                assert(occurs_at(inner, dl, j));
            } else {
                let o = inner.len() - 1 - j;
                assert(rest[j + o] == inner[inner.len() - 1]);
            }
        }
    }
    lemma_find_is(rest, dl, inner.len() as int);
}

/// A document that opens with a delimiter, a delimiter-free block ending in a
/// line break, and a second delimiter: the display splits off that block.
proof fn lemma_split_generic(inner: Seq<char>, tail: Seq<char>)
    requires
        no_delimiter(inner),
        inner.len() > 0,
        inner.last() == '\n',
    ensures
        split_document(delimiter() + inner + delimiter() + tail).0 == trim(inner),
{
    let dl = delimiter();
    lemma_delimiter();
    let st = dl + inner + dl + tail;
    assert(st.subrange(0, 4) =~= dl);
    lemma_find_is(st, dl, 0);
    let rest = st.skip(4);
    assert(rest =~= inner + (dl + tail));
    assert((dl + tail).subrange(0, 4) =~= dl);
    lemma_no_early_delimiter(inner, dl + tail);
    assert(rest.take(inner.len() as int) =~= inner);
}

/// The frontmatter part of the document that the display splits off.
proof fn lemma_split_status(d: StatusDoc)
    requires
        plain_values(d),
    ensures
        split_document(status_text(d)).0 == trim(frontmatter_inner(d)),
{
    let inner = frontmatter_inner(d);
    lemma_inner_is_lines(d);
    lemma_lines_from_no_delimiter(d, 0);
    let tail = "\n"@ + crate::status_model::body_text(d);
    assert(status_text(d) =~= delimiter() + inner + delimiter() + tail);
    lemma_split_generic(inner, tail);
}


proof fn lemma_trim_end_concat(a: Seq<char>, b: Seq<char>)
    requires
        trim_end(b).len() > 0,
    ensures
        trim_end(a + b) == a + trim_end(b),
    decreases b.len(),
{
    if b.len() > 0 && is_whitespace(b.last()) {
        assert((a + b).drop_last() =~= a + b.drop_last());
        assert((a + b).last() == b.last());
        lemma_trim_end_concat(a, b.drop_last());
    } else {
        assert(b.len() > 0);
        assert((a + b).last() == b.last());
    }
}

/// The last frontmatter line as trimming leaves it: `name:` alone when the
/// value is empty.
pub open spec fn last_field_line(name: Seq<char>, v: Seq<char>) -> Seq<char> {
    if v.len() == 0 {
        name + seq![':']
    } else {
        field_line(name, v)
    }
}

/// The frontmatter lines from the `i`-th on, trimmed at the end.
pub open spec fn trimmed_from(d: StatusDoc, i: int) -> Seq<char>
    decreases 5 - i,
{
    if i >= 5 || i < 0 {
        last_field_line(keys()[5], values(d)[5])
    } else {
        field_line(keys()[i], values(d)[i]) + seq!['\n'] + trimmed_from(d, i + 1)
    }
}

proof fn lemma_trimmed_from(d: StatusDoc, i: int)
    requires
        0 <= i <= 5,
        plain_values(d),
    ensures
        trim_end(lines_from(d, i)) == trimmed_from(d, i),
        trimmed_from(d, i).len() > 0,
        !is_whitespace(trimmed_from(d, i).last()),
    decreases 5 - i,
{
    lemma_fixed_values(d);
    let k = keys()[i];
    let v = values(d)[i];
    let l = field_line(k, v);
    if i == 5 {
        assert(lines_from(d, 6) == Seq::<char>::empty());
        assert(lines_from(d, 5) =~= l + seq!['\n']);
        assert((l + seq!['\n']).drop_last() =~= l);
        assert(is_whitespace('\n'));
        assert((l + seq!['\n']).last() == '\n');
        assert(trim_end(l + seq!['\n']) == trim_end(l));
        if v.len() == 0 {
            assert(l =~= k + seq![':', ' ']);
            assert(l.drop_last() =~= k + seq![':']);
            assert(is_whitespace(' '));
            assert(l.last() == ' ');
            assert(trim_end(l) == trim_end(k + seq![':']));
            assert((k + seq![':']).last() == ':');
            assert(!is_whitespace(':'));
            assert(trim_end(k + seq![':']) == k + seq![':']);
        } else {
            lemma_trimmed_ends(v);
            assert(l.last() == v.last());
            assert(trim_end(l) == l);
        }
    } else {
        lemma_trimmed_from(d, i + 1);
        let rest = lines_from(d, i + 1);
        assert(lines_from(d, i) == (l + seq!['\n']) + rest);
        lemma_trim_end_concat(l + seq!['\n'], rest);
        let t = trimmed_from(d, i + 1);
        assert((l + seq!['\n'] + t).last() == t.last());
    }
}

proof fn lemma_trim_inner(d: StatusDoc)
    requires
        plain_values(d),
    ensures
        trim(frontmatter_inner(d)) == trimmed_from(d, 0),
{
    lemma_inner_is_lines(d);
    lemma_fixed_values(d);
    lemma_trimmed_from(d, 0);
    let s = lines_from(d, 0);
    let k = keys()[0];
    assert(s[0] == k[0]);
    assert(trim_start(s) == s);
}

/// The frontmatter lines, as the display reads them after trimming.
pub open spec fn field_lines(d: StatusDoc) -> Seq<Seq<char>> {
    seq![
        field_line(keys()[0], values(d)[0]),
        field_line(keys()[1], values(d)[1]),
        field_line(keys()[2], values(d)[2]),
        field_line(keys()[3], values(d)[3]),
        field_line(keys()[4], values(d)[4]),
        last_field_line(keys()[5], values(d)[5]),
    ]
}

proof fn lemma_lines_trimmed(d: StatusDoc, i: int)
    requires
        0 <= i <= 5,
        plain_values(d),
    ensures
        lines(trimmed_from(d, i)) == field_lines(d).skip(i),
    decreases 5 - i,
{
    lemma_fixed_values(d);
    if i == 5 {
        lemma_trimmed_from(d, 5);
        let k = keys()[5];
        let v = values(d)[5];
        lemma_field_line_props(k, v);
        let t = trimmed_from(d, 5);
        assert forall|j: int| 0 <= j < t.len() implies t[j] != '\n' by {
            if v.len() == 0 {
                if j < k.len() {
                    assert(t[j] == k[j]);
                }
            } else {
                assert(t[j] == field_line(k, v)[j]);
            }
        }
        lemma_lines_single(t);
        assert(field_lines(d).skip(5) =~= seq![t]);
    } else {
        lemma_lines_trimmed(d, i + 1);
        let k = keys()[i];
        let v = values(d)[i];
        lemma_field_line_props(k, v);
        lemma_lines_cons(field_line(k, v), trimmed_from(d, i + 1));
        assert(field_lines(d).skip(i) =~= seq![field_line(k, v)] + field_lines(d).skip(i + 1));
    }
}

proof fn lemma_last_field(name: Seq<char>, v: Seq<char>)
    requires
        plain_key(name),
        plain_value(v),
    ensures
        split_once(last_field_line(name, v), ':') matches Some((a, b)) && trim(a) == name && trim(b)
            == v,
{
    lemma_field_line_props(name, v);
    if v.len() == 0 {
        let l = name + seq![':'];
        lemma_char_index_unique(l, ':', Some(name.len() as int));
        assert(l.take(name.len() as int) =~= name);
        assert(l.skip((name.len() + 1) as int) =~= Seq::<char>::empty());
        assert(v =~= Seq::<char>::empty());
    }
}

proof fn lemma_fields_prefix(d: StatusDoc, i: int)
    requires
        0 <= i <= 5,
        plain_values(d),
    ensures
        fields(field_lines(d).take(i)) == frontmatter_fields(d).take(i),
    decreases i,
{
    lemma_fixed_values(d);
    let fl = field_lines(d);
    if i == 0 {
        assert(fl.take(0) =~= Seq::<Seq<char>>::empty());
        assert(frontmatter_fields(d).take(0) =~= Seq::<(Seq<char>, Seq<char>)>::empty());
    } else {
        lemma_fields_prefix(d, i - 1);
        let k = keys()[i - 1];
        let v = values(d)[i - 1];
        lemma_field_line_props(k, v);
        assert(fl[i - 1] == field_line(k, v));
        assert(fl.take(i) =~= fl.take(i - 1).push(fl[i - 1]));
        lemma_fields_push(fl.take(i - 1), fl[i - 1]);
        assert(frontmatter_fields(d)[i - 1] == (k, v));
        assert(frontmatter_fields(d).take(i) =~= frontmatter_fields(d).take(i - 1) + seq![(k, v)]);
    }
}

proof fn lemma_fields_of_lines(d: StatusDoc)
    requires
        plain_values(d),
    ensures
        fields(field_lines(d)) == frontmatter_fields(d),
{
    lemma_fixed_values(d);
    let fl = field_lines(d);
    lemma_fields_prefix(d, 5);
    lemma_last_field(keys()[5], values(d)[5]);
    assert(fl =~= fl.take(5).push(fl[5]));
    lemma_fields_push(fl.take(5), fl[5]);
    assert(frontmatter_fields(d) =~= frontmatter_fields(d).take(5) + seq![
        (keys()[5], values(d)[5]),
    ]);
}

/// What `StatusDoc::write` puts into the frontmatter, `status_display` reads
/// back as the same fields in the same order: `rapstat_version`, `project`,
/// `machine`, `trigger`, `updated_at`, `branch`. This holds whenever each
/// value is a single line without surrounding whitespace that does not end
/// in `---`.
pub proof fn lemma_display_reads_back_frontmatter(d: StatusDoc)
    requires
        plain_value(d.project@),
        plain_value(d.machine@),
        plain_value(rfc(d.updated_at)),
        plain_value(d.repo.branch@),
    ensures
        fields(lines(split_document(status_text(d)).0)) == frontmatter_fields(d),
{
    lemma_fixed_values(d);
    assert forall|i: int| 0 <= i < 6 implies plain_value(#[trigger] values(d)[i]) by {}
    lemma_split_status(d);
    lemma_trim_inner(d);
    lemma_lines_trimmed(d, 0);
    assert(field_lines(d).skip(0) =~= field_lines(d));
    lemma_fields_of_lines(d);
}
} // verus!
