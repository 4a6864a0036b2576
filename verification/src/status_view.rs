//! How `rapstat status` shows a STATUS.md: the frontmatter as key/value pairs,
//! then the body with headings, drift and discrepancies picked out.
use vstd::prelude::*;
use crate::text::{
    char_index, chars_of, contains, contains_chars, find, find_chars, lines, lines_of, slice_chars,
    split_once, starts_with, starts_with_chars, string_of, trim, trim_chars, views,
};

verus! {

/// How a body line is shown.
#[derive(Clone, Copy, Debug, PartialEq, Eq)]
pub enum LineStyle {
    /// A section heading.
    Heading,
    /// A line that reports drift, something missing, or that discrepancies follow.
    Warning,
    /// A discrepancy bullet under a flagged section.
    Alert,
    /// Anything else.
    Plain,
}

/// One line of the display.
#[derive(Debug, PartialEq, Eq)]
pub enum DisplayLine {
    /// The banner above the frontmatter.
    Title,
    /// A frontmatter field.
    Field { key: String, value: String },
    /// The empty line between frontmatter and body.
    Blank,
    /// A body line.
    Body { style: LineStyle, text: String },
}

/// The view of a display line.
pub enum DisplayView {
    Title,
    Field(Seq<char>, Seq<char>),
    Blank,
    Body(LineStyle, Seq<char>),
}

impl View for DisplayLine {
    type V = DisplayView;

    open spec fn view(&self) -> DisplayView {
        match self {
            DisplayLine::Title => DisplayView::Title,
            DisplayLine::Field { key, value } => DisplayView::Field(key@, value@),
            DisplayLine::Blank => DisplayView::Blank,
            DisplayLine::Body { style, text } => DisplayView::Body(*style, text@),
        }
    }
}

/// The delimiter of the frontmatter.
pub open spec fn delimiter() -> Seq<char> {
    "---\n"@
}

/// The content split at the first two delimiters, as `splitn(3, "---\n")`
/// parts two and three (each empty when absent), both trimmed.
pub open spec fn split_document(content: Seq<char>) -> (Seq<char>, Seq<char>) {
    let d = delimiter();
    match find(content, d) {
        None => (seq![], seq![]),
        Some(a) => {
            let rest = content.skip(a + d.len());
            match find(rest, d) {
                None => (trim(rest), seq![]),
                Some(b) => (trim(rest.take(b)), trim(rest.skip(b + d.len()))),
            }
        },
    }
}

/// The frontmatter fields: each line with a `:`, split at the first, both sides trimmed.
pub open spec fn fields(ls: Seq<Seq<char>>) -> Seq<(Seq<char>, Seq<char>)>
    decreases ls.len(),
{
    if ls.len() == 0 {
        seq![]
    } else {
        fields(ls.drop_last()) + match split_once(ls.last(), ':') {
            Some((k, v)) => seq![(trim(k), trim(v))],
            None => seq![],
        }
    }
}

/// How a body line is shown, and whether discrepancy bullets follow, given
/// whether they followed before it.
pub open spec fn classify(line: Seq<char>, in_discrepancies: bool) -> (LineStyle, bool) {
    if starts_with(line, "## "@) {
        (LineStyle::Heading, false)
    } else if contains(line, "drift_detected"@) || contains(line, "missing"@) {
        (LineStyle::Warning, false)
    } else if contains(line, "Discrepancies:"@) && !contains(line, "none"@) {
        (LineStyle::Warning, true)
    } else if starts_with(line, "  - "@) && in_discrepancies {
        (LineStyle::Alert, true)
    } else {
        (LineStyle::Plain, if starts_with(line, "- "@) {
            false
        } else {
            in_discrepancies
        })
    }
}

/// The styles of the body lines, starting with or without discrepancies pending.
pub open spec fn body_styles(ls: Seq<Seq<char>>, in_discrepancies: bool) -> Seq<LineStyle>
    decreases ls.len(),
{
    if ls.len() == 0 {
        seq![]
    } else {
        let (style, next) = classify(ls[0], in_discrepancies);
        seq![style] + body_styles(ls.drop_first(), next)
    }
}

/// The display of a STATUS.md text.
pub open spec fn display(content: Seq<char>) -> Seq<DisplayView> {
    let (fm, body) = split_document(content);
    let fs = fields(lines(fm));
    let bl = lines(body);
    let st = body_styles(bl, false);
    seq![DisplayView::Title] + fs.map_values(|f: (Seq<char>, Seq<char>)| DisplayView::Field(f.0, f.1))
        + seq![DisplayView::Blank] + Seq::new(bl.len(), |i: int| DisplayView::Body(st[i], bl[i]))
}

/// The views of a list of display lines.
pub open spec fn display_views(v: Seq<DisplayLine>) -> Seq<DisplayView> {
    v.map_values(|l: DisplayLine| l@)
}

proof fn lemma_body_styles_len(ls: Seq<Seq<char>>, b: bool)
    ensures
        body_styles(ls, b).len() == ls.len(),
    decreases ls.len(),
{
    if ls.len() > 0 {
        lemma_body_styles_len(ls.drop_first(), classify(ls[0], b).1);
    }
}

fn split_document_exec(content: &Vec<char>) -> (r: (Vec<char>, Vec<char>))
    ensures
        (r.0@, r.1@) == split_document(content@),
{
    let d = chars_of("---\n");
    match find_chars(content, &d) {
        None => (Vec::new(), Vec::new()),
        Some(a) => {
            proof {
                crate::text::lemma_find_from(content@, d@, 0);
                assert(a + d@.len() <= content@.len());
            }
            let dl = d.len();
            let cl = content.len();
            assert(a + dl <= cl);
            let rest = slice_chars(content, a + dl, cl);
            assert(rest@ =~= content@.skip(a + d@.len()));
            match find_chars(&rest, &d) {
                None => (trim_chars(&rest), Vec::new()),
                Some(b) => {
                    proof {
                        crate::text::lemma_find_from(rest@, d@, 0);
                    }
                    let fm = slice_chars(&rest, 0, b);
                    let body = slice_chars(&rest, b + d.len(), rest.len());
                    assert(fm@ =~= rest@.take(b as int));
                    assert(body@ =~= rest@.skip(b + d@.len()));
                    (trim_chars(&fm), trim_chars(&body))
                },
            }
        },
    }
}

fn classify_exec(line: &Vec<char>, in_discrepancies: bool) -> (r: (LineStyle, bool))
    ensures
        r == classify(line@, in_discrepancies),
{
    if starts_with_chars(line, &chars_of("## ")) {
        (LineStyle::Heading, false)
    } else if contains_chars(line, &chars_of("drift_detected")) || contains_chars(
        line,
        &chars_of("missing"),
    ) {
        (LineStyle::Warning, false)
    } else if contains_chars(line, &chars_of("Discrepancies:")) && !contains_chars(
        line,
        &chars_of("none"),
    ) {
        (LineStyle::Warning, true)
    } else if starts_with_chars(line, &chars_of("  - ")) && in_discrepancies {
        (LineStyle::Alert, true)
    } else {
        let next = if starts_with_chars(line, &chars_of("- ")) {
            false
        } else {
            in_discrepancies
        };
        (LineStyle::Plain, next)
    }
}

/// The field of a frontmatter line, if it has a `:`.
fn field_of(line: &Vec<char>) -> (r: Option<(Vec<char>, Vec<char>)>)
    ensures
        r matches Some(kv) ==> split_once(line@, ':') matches Some((k, v)) && kv.0@ == trim(k)
            && kv.1@ == trim(v),
        r is None ==> split_once(line@, ':') is None,
{
    assert(line@.skip(0) =~= line@);
    match crate::text::char_index_from(line, ':', 0) {
        Some(k) => {
            proof {
                crate::text::lemma_char_index(line@, ':');
            }
            let key = slice_chars(line, 0, k);
            let value = slice_chars(line, k + 1, line.len());
            proof {
                assert(line@.subrange(0, k as int) =~= line@.take(k as int));
                assert(line@.subrange(k + 1, line@.len() as int) =~= line@.skip(k + 1));
            }
            Some((trim_chars(&key), trim_chars(&value)))
        },
        None => None,
    }
}

/// The lines that `rapstat status` shows for a STATUS.md text: a title, the
/// frontmatter fields, a blank line, and the body lines with their styles.
pub fn status_display(content: &str) -> (r: Vec<DisplayLine>)
    ensures
        display_views(r@) == display(content@),
{
    let cv = chars_of(content);
    let (fm, body) = split_document_exec(&cv);
    let mut out: Vec<DisplayLine> = Vec::new();
    out.push(DisplayLine::Title);
    let fls = lines_of(&fm);
    let ghost fl = views(fls@);
    let mut i: usize = 0;
    assert(fl.take(0) =~= Seq::<Seq<char>>::empty());
    assert(display_views(out@) =~= seq![DisplayView::Title]);
    while i < fls.len()
        invariant
            i <= fls.len(),
            fl == views(fls@),
            display_views(out@) == seq![DisplayView::Title] + fields(fl.take(i as int)).map_values(
                |f: (Seq<char>, Seq<char>)| DisplayView::Field(f.0, f.1),
            ),
        decreases fls.len() - i,
    {
        let line = &fls[i];
        let ghost before = out@;
        proof {
            assert(fl.take(i + 1).drop_last() =~= fl.take(i as int));
            assert(fl.take(i + 1).last() == line@);
        }
        match field_of(line) {
            Some((key, value)) => {
                out.push(DisplayLine::Field { key: string_of(&key), value: string_of(&value) });
                proof {
                    let g = |f: (Seq<char>, Seq<char>)| DisplayView::Field(f.0, f.1);
                    assert(fields(fl.take(i + 1)) =~= fields(fl.take(i as int)) + seq![
                        (key@, value@),
                    ]);
                    assert(display_views(out@) =~= display_views(before).push(
                        DisplayView::Field(key@, value@),
                    ));
                    assert(fields(fl.take(i + 1)).map_values(g) =~= fields(
                        fl.take(i as int),
                    ).map_values(g).push(DisplayView::Field(key@, value@)));
                }
            },
            None => {
                proof {
                    assert(fields(fl.take(i + 1)) =~= fields(fl.take(i as int)) + seq![]);
                    assert(fields(fl.take(i + 1)) =~= fields(fl.take(i as int)));
                }
            },
        }
        i = i + 1;
    }
    assert(fl.take(i as int) =~= fl);
    out.push(DisplayLine::Blank);
    let ghost head = display_views(out@);
    let bls = lines_of(&body);
    let ghost bl = views(bls@);
    proof {
        lemma_body_styles_len(bl, false);
    }
    let mut in_disc = false;
    let mut j: usize = 0;
    let ghost st = body_styles(bl, false);
    assert(bl.skip(0) =~= bl);
    while j < bls.len()
        invariant
            j <= bls.len(),
            bl == views(bls@),
            st == body_styles(bl, false),
            st.len() == bl.len(),
            display_views(out@) == head + Seq::new(j as nat, |m: int| DisplayView::Body(st[m], bl[m])),
            st.skip(j as int) == body_styles(bl.skip(j as int), in_disc),
        decreases bls.len() - j,
    {
        let line = &bls[j];
        let (style, next) = classify_exec(line, in_disc);
        let ghost before = out@;
        proof {
            lemma_body_styles_len(bl.skip(j as int), in_disc);
            assert(bl.skip(j as int)[0] == line@);
            assert(bl.skip(j as int).drop_first() =~= bl.skip(j + 1));
            assert(st[j as int] == st.skip(j as int)[0]);
            assert(st.skip(j + 1) =~= st.skip(j as int).drop_first());
        }
        out.push(DisplayLine::Body { style, text: string_of(line) });
        proof {
            assert(display_views(out@) =~= display_views(before).push(
                DisplayView::Body(style, line@),
            ));
            assert(head + Seq::new((j + 1) as nat, |m: int| DisplayView::Body(st[m], bl[m])) =~= (
            head + Seq::new(j as nat, |m: int| DisplayView::Body(st[m], bl[m]))).push(
                DisplayView::Body(style, line@),
            ));
        }
        in_disc = next;
        j = j + 1;
    }
    proof {
        assert(display_views(out@) =~= display(content@));
    }
    out
}

} // verus!
