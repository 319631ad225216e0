//! Splitting one line of text into runs, each with its style tags.
use crate::syntax::{copy_tags, SingleLineSpan, StyleTag};
use vstd::prelude::*;

verus! {

/// A span of a line and the tags to style it with.
pub type SpanStyle = (SingleLineSpan, Vec<StyleTag>);

/// A run of text and its style tags.
pub type StyledRun = (String, Vec<StyleTag>);

/// A span style as values.
pub open spec fn span_style_view(s: SpanStyle) -> (SingleLineSpan, Seq<StyleTag>) {
    (s.0, s.1@)
}

/// A list of span styles as values.
pub open spec fn styles_view(v: Seq<SpanStyle>) -> Seq<(SingleLineSpan, Seq<StyleTag>)> {
    v.map_values(|s: SpanStyle| span_style_view(s))
}

/// A list of styled runs as values.
pub open spec fn runs_view(v: Seq<StyledRun>) -> Seq<(Seq<char>, Seq<StyleTag>)> {
    v.map_values(|r: StyledRun| (r.0@, r.1@))
}

/// Spans lie within a line of `line_len` codepoints, are ordered by
/// column, and do not overlap.
pub open spec fn styles_well_formed(
    line_len: nat,
    styles: Seq<(SingleLineSpan, Seq<StyleTag>)>,
) -> bool {
    &&& forall|i: int|
        0 <= i < styles.len() ==> #[trigger] styles[i].0.start_col <= styles[i].0.end_col
            <= line_len
    &&& forall|i: int| 0 < i < styles.len() ==> styles[i - 1].0.end_col <= #[trigger] styles[i].0.start_col
}

/// The untagged run of `line[from..to]`, or nothing where that is empty.
pub open spec fn untagged_run(line: Seq<char>, from: int, to: int) -> Seq<
    (Seq<char>, Seq<StyleTag>),
> {
    if from < to {
        seq![(line.subrange(from, to), Seq::<StyleTag>::empty())]
    } else {
        seq![]
    }
}

/// The column up to which the first `n` spans have covered the line.
pub open spec fn covered_to(styles: Seq<(SingleLineSpan, Seq<StyleTag>)>, n: int) -> int {
    if n <= 0 {
        0
    } else {
        styles[n - 1].0.end_col as int
    }
}

/// The runs for the part of the line up to the end of the `n`-th span:
/// before each span, the gap since the previous one, untagged; then the
/// span with its tags.
pub open spec fn runs_through(
    line: Seq<char>,
    styles: Seq<(SingleLineSpan, Seq<StyleTag>)>,
    n: nat,
) -> Seq<(Seq<char>, Seq<StyleTag>)>
    decreases n,
{
    if n == 0 {
        seq![]
    } else {
        let span = styles[n - 1].0;
        runs_through(line, styles, (n - 1) as nat) + untagged_run(
            line,
            covered_to(styles, n - 1),
            span.start_col as int,
        ) + seq![(line.subrange(span.start_col as int, span.end_col as int), styles[n - 1].1)]
    }
}

/// The runs of a whole line: those of all spans, then the untagged rest.
pub open spec fn styled_runs(
    line: Seq<char>,
    styles: Seq<(SingleLineSpan, Seq<StyleTag>)>,
) -> Seq<(Seq<char>, Seq<StyleTag>)> {
    runs_through(line, styles, styles.len()) + untagged_run(
        line,
        covered_to(styles, styles.len() as int),
        line.len() as int,
    )
}

/// Splits `line` into runs: the spans of `styles` with their tags and the
/// text between and after them untagged. Columns count codepoints.
pub fn apply_line(line: &str, styles: &[SpanStyle]) -> (r: Vec<StyledRun>)
    requires
        styles_well_formed(line@.len(), styles_view(styles@)),
    ensures
        runs_view(r@) == styled_runs(line@, styles_view(styles@)),
        styles@.len() == 0 ==> runs_view(r@) == untagged_run(line@, 0, line@.len() as int),
{
    let ghost sv = styles_view(styles@);
    let mut offset: usize = 0;
    let mut res: Vec<StyledRun> = Vec::new();
    let mut i: usize = 0;
    while i < styles.len()
        invariant
            i <= styles@.len(),
            sv == styles_view(styles@),
            styles_well_formed(line@.len(), sv),
            offset == covered_to(sv, i as int),
            offset <= line@.len(),
            runs_view(res@) == runs_through(line@, sv, i as nat),
        decreases styles@.len() - i,
    {
        let span = styles[i].0;
        assert(sv[i as int] == span_style_view(styles@[i as int]));
        if i > 0 {
            assert(sv[i - 1].0.end_col <= sv[i as int].0.start_col);
        }
        let ghost before = res@;
        if offset < span.start_col {
            res.push((line.substring_char(offset, span.start_col).to_owned(), Vec::new()));
        }
        res.push(
            (line.substring_char(span.start_col, span.end_col).to_owned(), copy_tags(&styles[i].1)),
        );
        offset = span.end_col;
        i += 1;
        assert(runs_view(res@) =~= runs_through(line@, sv, i as nat)) by {
            assert(runs_view(before) == runs_through(line@, sv, (i - 1) as nat));
        }
    }
    let len = line.unicode_len();
    if offset < len {
        res.push((line.substring_char(offset, len).to_owned(), Vec::new()));
    }
    assert(runs_view(res@) =~= styled_runs(line@, sv));
    res
}

/// Whether the spans lie within a line of `line`'s length, in column order
/// and without overlap.
pub fn spans_fit_line(line: &str, styles: &[SpanStyle]) -> (r: bool)
    ensures
        r == styles_well_formed(line@.len(), styles_view(styles@)),
{
    let ghost sv = styles_view(styles@);
    let len = line.unicode_len();
    let mut i: usize = 0;
    while i < styles.len()
        invariant
            i <= styles@.len(),
            sv == styles_view(styles@),
            len == line@.len(),
            styles_well_formed(line@.len(), sv.take(i as int)),
        decreases styles@.len() - i,
    {
        let span = styles[i].0;
        assert(sv[i as int].0 == span);
        if !(span.start_col <= span.end_col && span.end_col <= len) {
            assert(!styles_well_formed(line@.len(), sv) ) by {
                assert(sv[i as int].0.start_col <= sv[i as int].0.end_col <= line@.len() ==> false);
            }
            return false;
        }
        if i > 0 && styles[i - 1].0.end_col > span.start_col {
            assert(sv[i - 1].0 == styles@[i - 1].0);
            assert(!styles_well_formed(line@.len(), sv)) by {
                assert(sv[(i as int) - 1].0.end_col > sv[i as int].0.start_col);
            }
            return false;
        }
        i += 1;
        proof {
            let t = sv.take(i as int);
            assert forall|k: int| 0 <= k < t.len() implies #[trigger] t[k].0.start_col <= t[k].0.end_col
                <= line@.len() by {
                if k < i - 1 {
                    assert(sv.take(i - 1)[k] == t[k]);
                }
            }
            assert forall|k: int| 0 < k < t.len() implies t[k - 1].0.end_col <= #[trigger] t[k].0.start_col by {
                if k < i - 1 {
                    assert(sv.take(i - 1)[k] == t[k]);
                    assert(sv.take(i - 1)[k - 1] == t[k - 1]);
                } else {
                    assert(sv[k - 1].0 == styles@[k - 1].0);
                }
            }
        }
    }
    assert(sv.take(i as int) =~= sv);
    true
}

/// The texts of a sequence of runs, joined in order.
pub open spec fn joined_text(runs: Seq<(Seq<char>, Seq<StyleTag>)>) -> Seq<char>
    decreases runs.len(),
{
    if runs.len() == 0 {
        seq![]
    } else {
        joined_text(runs.drop_last()) + runs.last().0
    }
}

/// The column at which the `k`-th run starts.
pub open spec fn run_start(runs: Seq<(Seq<char>, Seq<StyleTag>)>, k: int) -> int {
    joined_text(runs.take(k)).len() as int
}

proof fn lemma_joined_append(
    a: Seq<(Seq<char>, Seq<StyleTag>)>,
    b: Seq<(Seq<char>, Seq<StyleTag>)>,
)
    ensures
        joined_text(a + b) == joined_text(a) + joined_text(b),
    decreases b.len(),
{
    if b.len() == 0 {
        assert(a + b =~= a);
        assert(joined_text(a) + joined_text(b) =~= joined_text(a));
    } else {
        lemma_joined_append(a, b.drop_last());
        assert((a + b).drop_last() =~= a + b.drop_last());
        assert((a + b).last() == b.last());
        assert(joined_text(a + b) =~= joined_text(a) + joined_text(b));
    }
}

proof fn lemma_joined_single(run: (Seq<char>, Seq<StyleTag>))
    ensures
        joined_text(seq![run]) == run.0,
{
    assert(seq![run].drop_last() =~= Seq::<(Seq<char>, Seq<StyleTag>)>::empty());
    assert(joined_text(Seq::<(Seq<char>, Seq<StyleTag>)>::empty()) + run.0 =~= run.0);
}

proof fn lemma_runs_through_cover(
    line: Seq<char>,
    styles: Seq<(SingleLineSpan, Seq<StyleTag>)>,
    n: nat,
)
    requires
        styles_well_formed(line.len(), styles),
        n <= styles.len(),
    ensures
        0 <= covered_to(styles, n as int) <= line.len(),
        joined_text(runs_through(line, styles, n)) == line.subrange(0, covered_to(styles, n as int)),
    decreases n,
{
    if n == 0 {
        assert(joined_text(runs_through(line, styles, n)) =~= line.subrange(0, 0));
    } else {
        let k = n - 1;
        lemma_runs_through_cover(line, styles, k as nat);
        let c = covered_to(styles, k);
        let span = styles[k].0;
        if k > 0 {
            assert(styles[k - 1].0.end_col <= styles[k].0.start_col);
        }
        assert(c <= span.start_col);
        let prev = runs_through(line, styles, k as nat);
        let gap = untagged_run(line, c, span.start_col as int);
        let tagged = seq![(line.subrange(span.start_col as int, span.end_col as int), styles[k].1)];
        lemma_joined_append(prev + gap, tagged);
        lemma_joined_append(prev, gap);
        lemma_joined_single(tagged[0]);
        assert(tagged =~= seq![tagged[0]]);
        if c < span.start_col {
            lemma_joined_single(gap[0]);
            assert(gap =~= seq![gap[0]]);
        } else {
            assert(joined_text(gap) =~= Seq::<char>::empty());
        }
        assert(joined_text(runs_through(line, styles, n)) =~= line.subrange(
            0,
            covered_to(styles, n as int),
        ));
    }
}

/// The runs of a line, joined, give back the line exactly.
pub proof fn lemma_runs_cover_line(line: Seq<char>, styles: Seq<(SingleLineSpan, Seq<StyleTag>)>)
    requires
        styles_well_formed(line.len(), styles),
    ensures
        joined_text(styled_runs(line, styles)) == line,
{
    let n = styles.len();
    lemma_runs_through_cover(line, styles, n);
    let c = covered_to(styles, n as int);
    let rest = untagged_run(line, c, line.len() as int);
    lemma_joined_append(runs_through(line, styles, n), rest);
    if c < line.len() {
        lemma_joined_single(rest[0]);
        assert(rest =~= seq![rest[0]]);
    } else {
        assert(joined_text(rest) =~= Seq::<char>::empty());
    }
    assert(joined_text(styled_runs(line, styles)) =~= line);
}

/// The runs of a line follow each other in column order without overlap:
/// each run starts where the previous one ended and holds exactly the
/// line's text between its start and end columns.
pub proof fn lemma_runs_in_column_order(
    line: Seq<char>,
    styles: Seq<(SingleLineSpan, Seq<StyleTag>)>,
)
    requires
        styles_well_formed(line.len(), styles),
    ensures
        forall|k: int|
            0 <= k < styled_runs(line, styles).len() ==> run_start(styled_runs(line, styles), k)
                <= run_start(styled_runs(line, styles), k + 1) && #[trigger] styled_runs(
                line,
                styles,
            )[k].0 == line.subrange(
                run_start(styled_runs(line, styles), k),
                run_start(styled_runs(line, styles), k + 1),
            ),
{
    let runs = styled_runs(line, styles);
    lemma_runs_cover_line(line, styles);
    assert forall|k: int| 0 <= k < runs.len() implies run_start(runs, k) <= run_start(runs, k + 1)
        && #[trigger] runs[k].0 == line.subrange(run_start(runs, k), run_start(runs, k + 1)) by {
        let head = runs.take(k + 1);
        assert(head.drop_last() =~= runs.take(k));
        assert(head.last() == runs[k]);
        assert(runs =~= head + runs.skip(k + 1));
        lemma_joined_append(head, runs.skip(k + 1));
        let before = joined_text(runs.take(k));
        assert(joined_text(head) == before + runs[k].0);
        assert(line.subrange(run_start(runs, k), run_start(runs, k + 1)) =~= runs[k].0);
    }
}

} // verus!
