//! Pairing the left and right lines of each hunk into rendered rows.
use crate::classifier::{apply_styles, grouped_styles, line_styles_view, LineStyles};
use crate::styler::{
    apply_line, runs_view, spans_fit_line, styled_runs, styles_view, styles_well_formed, untagged_run,
    SpanStyle, StyledRun,
};
use crate::syntax::{LineNumber, MatchedPos, SingleLineSpan, StyleTag};
use vstd::prelude::*;

verus! {

/// A rendered line: its number and its styled runs.
pub type NumberedLine = (LineNumber, Vec<StyledRun>);

/// One row of the side-by-side view; either side may be absent.
pub type PairedLine = (Option<NumberedLine>, Option<NumberedLine>);

/// The line numbers that the aligner puts side by side in one row.
pub type AlignedPair = (Option<LineNumber>, Option<LineNumber>);

/// The styled spans of one side as values, by line index.
pub type StylesModel = Map<usize, Seq<(SingleLineSpan, Seq<StyleTag>)>>;

/// A rendered line as values.
pub type NumberedModel = (LineNumber, Seq<(Seq<char>, Seq<StyleTag>)>);

/// A row as values.
pub type PairedModel = (Option<NumberedModel>, Option<NumberedModel>);

/// The texts of a side's lines.
pub open spec fn lines_view(lines: Seq<String>) -> Seq<Seq<char>> {
    lines.map_values(|s: String| s@)
}

/// The alignment of each hunk as values.
pub open spec fn alignments_view(hunks: Seq<Vec<AlignedPair>>) -> Seq<Seq<AlignedPair>> {
    hunks.map_values(|h: Vec<AlignedPair>| h@)
}

/// The rows of all hunks in hunk order, each hunk's in its own order.
pub open spec fn flat_alignment(hunks: Seq<Seq<AlignedPair>>) -> Seq<AlignedPair>
    decreases hunks.len(),
{
    if hunks.len() == 0 {
        seq![]
    } else {
        flat_alignment(hunks.drop_last()) + hunks.last()
    }
}

/// Where the rows of hunk `h` start among the rows of all hunks.
pub open spec fn hunk_offset(hunks: Seq<Seq<AlignedPair>>, h: int) -> int {
    flat_alignment(hunks.take(h)).len() as int
}

/// A rendered line as values.
pub open spec fn numbered_view(n: NumberedLine) -> NumberedModel {
    (n.0, runs_view(n.1@))
}

/// One side of a row as values.
pub open spec fn side_view(s: Option<NumberedLine>) -> Option<NumberedModel> {
    match s {
        Some(n) => Some(numbered_view(n)),
        None => None,
    }
}

/// Rows as values.
pub open spec fn paired_view(rows: Seq<PairedLine>) -> Seq<PairedModel> {
    rows.map_values(|p: PairedLine| (side_view(p.0), side_view(p.1)))
}

/// The styled spans of a line, or none where the line has none recorded.
pub open spec fn spans_of_line(styles: StylesModel, ln: usize) -> Seq<(SingleLineSpan, Seq<StyleTag>)> {
    if styles.contains_key(ln) {
        styles[ln]
    } else {
        seq![]
    }
}

/// The runs of line `ln` of a side.
pub open spec fn rendered_line(lines: Seq<Seq<char>>, styles: StylesModel, ln: usize) -> Seq<
    (Seq<char>, Seq<StyleTag>),
> {
    styled_runs(lines[ln as int], spans_of_line(styles, ln))
}

/// One side of a row: the numbered, rendered line, if the row has one.
pub open spec fn rendered_side(
    lines: Seq<Seq<char>>,
    styles: StylesModel,
    ln: Option<LineNumber>,
) -> Option<NumberedModel> {
    match ln {
        Some(n) => Some((n, rendered_line(lines, styles, n.0))),
        None => None,
    }
}

/// The rows for a sequence of aligned pairs, one for each, in order.
pub open spec fn rendered_pairs(
    lhs: Seq<Seq<char>>,
    lhs_styles: StylesModel,
    rhs: Seq<Seq<char>>,
    rhs_styles: StylesModel,
    pairs: Seq<AlignedPair>,
) -> Seq<PairedModel> {
    pairs.map_values(
        |p: AlignedPair|
            (rendered_side(lhs, lhs_styles, p.0), rendered_side(rhs, rhs_styles, p.1)),
    )
}

/// A row's line on one side, if present, is one of the side's lines, and
/// the spans recorded for it are well formed for it.
pub open spec fn line_renderable(lines: Seq<Seq<char>>, styles: StylesModel, ln: Option<LineNumber>) -> bool {
    match ln {
        Some(n) => n.0 < lines.len() && styles_well_formed(
            lines[n.0 as int].len(),
            spans_of_line(styles, n.0),
        ),
        None => true,
    }
}

/// A row can be rendered on both sides.
pub open spec fn row_renderable(
    lhs: Seq<Seq<char>>,
    lhs_styles: StylesModel,
    rhs: Seq<Seq<char>>,
    rhs_styles: StylesModel,
    row: AlignedPair,
) -> bool {
    line_renderable(lhs, lhs_styles, row.0) && line_renderable(rhs, rhs_styles, row.1)
}

/// Every row of every hunk can be rendered on both sides.
pub open spec fn rows_renderable(
    lhs: Seq<Seq<char>>,
    lhs_styles: StylesModel,
    rhs: Seq<Seq<char>>,
    rhs_styles: StylesModel,
    hunks: Seq<Seq<AlignedPair>>,
) -> bool {
    forall|h: int, j: int|
        0 <= h < hunks.len() && 0 <= j < hunks[h].len() ==> row_renderable(
            lhs,
            lhs_styles,
            rhs,
            rhs_styles,
            #[trigger] hunks[h][j],
        )
}

/// Renders one side of a row: the line's text split into runs by the
/// spans recorded for it, or into one untagged run where none are.
fn render_side(lines: &Vec<String>, styles: &LineStyles, ln: Option<LineNumber>) -> (r: Option<
    NumberedLine,
>)
    requires
        line_renderable(lines_view(lines@), line_styles_view(styles@), ln),
    ensures
        side_view(r) == rendered_side(lines_view(lines@), line_styles_view(styles@), ln),
{
    broadcast use vstd::std_specs::hash::group_hash_axioms;

    match ln {
        None => None,
        Some(n) => {
            let line = lines[n.0].as_str();
            assert(lines_view(lines@)[n.0 as int] == line@);
            let runs = match styles.get(&n.0) {
                Some(v) => {
                    assert(line_styles_view(styles@).contains_key(n.0));
                    assert(line_styles_view(styles@)[n.0] == styles_view(v@));
                    apply_line(line, v.as_slice())
                },
                None => {
                    let empty: Vec<SpanStyle> = Vec::new();
                    assert(styles_view(empty@) =~= seq![]);
                    apply_line(line, empty.as_slice())
                },
            };
            Some((n, runs))
        },
    }
}

/// Renders the rows of all hunks, in hunk order and, within a hunk, in the
/// order of its aligned pairs. Each present line is split into runs by the
/// spans that the classifier records for it on its side.
fn render_rows(
    lhs_lines: &Vec<String>,
    rhs_lines: &Vec<String>,
    lhs_line_styles: &LineStyles,
    rhs_line_styles: &LineStyles,
    hunk_alignments: &Vec<Vec<AlignedPair>>,
) -> (r: Vec<PairedLine>)
    requires
        rows_renderable(
            lines_view(lhs_lines@),
            line_styles_view(lhs_line_styles@),
            lines_view(rhs_lines@),
            line_styles_view(rhs_line_styles@),
            alignments_view(hunk_alignments@),
        ),
    ensures
        paired_view(r@) == rendered_pairs(
            lines_view(lhs_lines@),
            line_styles_view(lhs_line_styles@),
            lines_view(rhs_lines@),
            line_styles_view(rhs_line_styles@),
            flat_alignment(alignments_view(hunk_alignments@)),
        ),
{
    let ghost lv = lines_view(lhs_lines@);
    let ghost rv = lines_view(rhs_lines@);
    let ghost ls = line_styles_view(lhs_line_styles@);
    let ghost rs = line_styles_view(rhs_line_styles@);
    let ghost hunks = alignments_view(hunk_alignments@);
    let mut paired: Vec<PairedLine> = Vec::new();
    let mut h: usize = 0;
    while h < hunk_alignments.len()
        invariant
            h <= hunks.len(),
            hunks == alignments_view(hunk_alignments@),
            line_styles_view(lhs_line_styles@) == ls,
            line_styles_view(rhs_line_styles@) == rs,
            lv == lines_view(lhs_lines@),
            rv == lines_view(rhs_lines@),
            rows_renderable(lv, ls, rv, rs, hunks),
            paired_view(paired@) == rendered_pairs(lv, ls, rv, rs, flat_alignment(hunks.take(h as int))),
        decreases hunks.len() - h,
    {
        let aligned = &hunk_alignments[h];
        assert(hunks[h as int] == aligned@);
        let ghost done = flat_alignment(hunks.take(h as int));
        let mut j: usize = 0;
        while j < aligned.len()
            invariant
                h < hunks.len(),
                j <= aligned@.len(),
                hunks[h as int] == aligned@,
                hunks == alignments_view(hunk_alignments@),
                line_styles_view(lhs_line_styles@) == ls,
                line_styles_view(rhs_line_styles@) == rs,
                lv == lines_view(lhs_lines@),
                rv == lines_view(rhs_lines@),
                rows_renderable(lv, ls, rv, rs, hunks),
                paired_view(paired@) == rendered_pairs(lv, ls, rv, rs, done + aligned@.take(j as int)),
            decreases aligned@.len() - j,
        {
            let (lhs_num, rhs_num) = aligned[j];
            assert(hunks[h as int][j as int] == aligned@[j as int]);
            let lhs = render_side(lhs_lines, lhs_line_styles, lhs_num);
            let rhs = render_side(rhs_lines, rhs_line_styles, rhs_num);
            let ghost before = paired@;
            paired.push((lhs, rhs));
            j += 1;
            assert(done + aligned@.take(j as int) =~= (done + aligned@.take(j - 1)).push(aligned@[j - 1]));
            let ghost p = aligned@[j - 1];
            assert(p.0 == lhs_num && p.1 == rhs_num);
            assert(paired_view(paired@) =~= paired_view(before).push((side_view(lhs), side_view(rhs))));
            assert(rendered_pairs(lv, ls, rv, rs, (done + aligned@.take(j - 1)).push(p)) =~= rendered_pairs(
                lv,
                ls,
                rv,
                rs,
                done + aligned@.take(j - 1),
            ).push((rendered_side(lv, ls, p.0), rendered_side(rv, rs, p.1))));
            assert(paired_view(paired@) =~= rendered_pairs(lv, ls, rv, rs, done + aligned@.take(j as int)));
        }
        h += 1;
        assert(hunks.take(h as int).drop_last() =~= hunks.take(h - 1));
        assert(aligned@.take(j as int) =~= aligned@);
    }
    assert(hunks.take(h as int) =~= hunks);
    paired
}

/// Renders the rows of all hunks, in hunk order and, within a hunk, in the
/// order of its aligned pairs. Each present line is split into runs by the
/// spans that the classifier records for it on its side, or into a single
/// untagged run where it records none.
pub fn pair_lines(
    lhs_lines: &Vec<String>,
    rhs_lines: &Vec<String>,
    lhs_mps: &[MatchedPos],
    rhs_mps: &[MatchedPos],
    hunk_alignments: &Vec<Vec<AlignedPair>>,
) -> (r: Vec<PairedLine>)
    requires
        rows_renderable(
            lines_view(lhs_lines@),
            grouped_styles(true, lhs_mps@),
            lines_view(rhs_lines@),
            grouped_styles(false, rhs_mps@),
            alignments_view(hunk_alignments@),
        ),
    ensures
        paired_view(r@) == rendered_pairs(
            lines_view(lhs_lines@),
            grouped_styles(true, lhs_mps@),
            lines_view(rhs_lines@),
            grouped_styles(false, rhs_mps@),
            flat_alignment(alignments_view(hunk_alignments@)),
        ),
{
    let lhs_line_styles = apply_styles(true, lhs_mps);
    let rhs_line_styles = apply_styles(false, rhs_mps);
    render_rows(lhs_lines, rhs_lines, &lhs_line_styles, &rhs_line_styles, hunk_alignments)
}

/// Whether a row's line on one side can be rendered.
fn line_fits(lines: &Vec<String>, styles: &LineStyles, ln: Option<LineNumber>) -> (r: bool)
    ensures
        r == line_renderable(lines_view(lines@), line_styles_view(styles@), ln),
{
    broadcast use vstd::std_specs::hash::group_hash_axioms;

    match ln {
        None => true,
        Some(n) => {
            if n.0 >= lines.len() {
                return false;
            }
            let line = lines[n.0].as_str();
            assert(lines_view(lines@)[n.0 as int] == line@);
            match styles.get(&n.0) {
                Some(v) => {
                    assert(line_styles_view(styles@)[n.0] == styles_view(v@));
                    spans_fit_line(line, v.as_slice())
                },
                None => {
                    assert(spans_of_line(line_styles_view(styles@), n.0) =~= seq![]);
                    true
                },
            }
        },
    }
}

/// Renders the rows as `pair_lines` does where every row's lines are
/// present and their spans well formed; otherwise returns `None`.
pub fn try_pair_lines(
    lhs_lines: &Vec<String>,
    rhs_lines: &Vec<String>,
    lhs_mps: &[MatchedPos],
    rhs_mps: &[MatchedPos],
    hunk_alignments: &Vec<Vec<AlignedPair>>,
) -> (r: Option<Vec<PairedLine>>)
    ensures
        r is Some <==> rows_renderable(
            lines_view(lhs_lines@),
            grouped_styles(true, lhs_mps@),
            lines_view(rhs_lines@),
            grouped_styles(false, rhs_mps@),
            alignments_view(hunk_alignments@),
        ),
        r is Some ==> paired_view(r->0@) == rendered_pairs(
            lines_view(lhs_lines@),
            grouped_styles(true, lhs_mps@),
            lines_view(rhs_lines@),
            grouped_styles(false, rhs_mps@),
            flat_alignment(alignments_view(hunk_alignments@)),
        ),
{
    let lhs_line_styles = apply_styles(true, lhs_mps);
    let rhs_line_styles = apply_styles(false, rhs_mps);
    let ghost lv = lines_view(lhs_lines@);
    let ghost rv = lines_view(rhs_lines@);
    let ghost ls = grouped_styles(true, lhs_mps@);
    let ghost rs = grouped_styles(false, rhs_mps@);
    let ghost hunks = alignments_view(hunk_alignments@);
    let mut h: usize = 0;
    while h < hunk_alignments.len()
        invariant
            h <= hunks.len(),
            hunks == alignments_view(hunk_alignments@),
            line_styles_view(lhs_line_styles@) == ls,
            line_styles_view(rhs_line_styles@) == rs,
            ls == grouped_styles(true, lhs_mps@),
            rs == grouped_styles(false, rhs_mps@),
            lv == lines_view(lhs_lines@),
            rv == lines_view(rhs_lines@),
            rows_renderable(lv, ls, rv, rs, hunks.take(h as int)),
        decreases hunks.len() - h,
    {
        let aligned = &hunk_alignments[h];
        assert(hunks[h as int] == aligned@);
        let mut j: usize = 0;
        while j < aligned.len()
            invariant
                h < hunks.len(),
                j <= aligned@.len(),
                hunks[h as int] == aligned@,
                hunks == alignments_view(hunk_alignments@),
                line_styles_view(lhs_line_styles@) == ls,
                line_styles_view(rhs_line_styles@) == rs,
                ls == grouped_styles(true, lhs_mps@),
                rs == grouped_styles(false, rhs_mps@),
                lv == lines_view(lhs_lines@),
                rv == lines_view(rhs_lines@),
                rows_renderable(lv, ls, rv, rs, hunks.take(h as int)),
                forall|k: int|
                    0 <= k < j ==> row_renderable(lv, ls, rv, rs, #[trigger] aligned@[k]),
            decreases aligned@.len() - j,
        {
            let (lhs_num, rhs_num) = aligned[j];
            assert(hunks[h as int][j as int] == aligned@[j as int]);
            assert(hunks[h as int][j as int].0 == lhs_num && hunks[h as int][j as int].1 == rhs_num);
            let lhs_fits = line_fits(lhs_lines, &lhs_line_styles, lhs_num);
            let rhs_fits = line_fits(rhs_lines, &rhs_line_styles, rhs_num);
            assert(lhs_fits == line_renderable(lv, ls, lhs_num));
            assert(rhs_fits == line_renderable(rv, rs, rhs_num));
            if !lhs_fits || !rhs_fits {
                assert(!row_renderable(lv, ls, rv, rs, hunks[h as int][j as int]));
                return None;
            }
            j += 1;
        }
        let ghost upto = hunks.take(h + 1);
        assert forall|g: int, k: int|
            0 <= g < upto.len() && 0 <= k < upto[g].len() implies row_renderable(
                lv,
                ls,
                rv,
                rs,
                #[trigger] upto[g][k],
            ) by {
            if g < h {
                assert(hunks.take(h as int)[g] == upto[g]);
            } else {
                assert(upto[g] == aligned@);
            }
        }
        h += 1;
    }
    assert(hunks.take(h as int) =~= hunks);
    Some(render_rows(lhs_lines, rhs_lines, &lhs_line_styles, &rhs_line_styles, hunk_alignments))
}

proof fn lemma_flat_append(a: Seq<Seq<AlignedPair>>, b: Seq<Seq<AlignedPair>>)
    ensures
        flat_alignment(a + b) == flat_alignment(a) + flat_alignment(b),
    decreases b.len(),
{
    if b.len() == 0 {
        assert(a + b =~= a);
        assert(flat_alignment(a) + flat_alignment(b) =~= flat_alignment(a));
    } else {
        lemma_flat_append(a, b.drop_last());
        assert((a + b).drop_last() =~= a + b.drop_last());
        assert((a + b).last() == b.last());
        assert(flat_alignment(a + b) =~= flat_alignment(a) + flat_alignment(b));
    }
}

/// Each hunk gets exactly one row per aligned pair, in the aligner's
/// order: the rows from `hunk_offset(hunks, h)` on, as many as hunk `h` has
/// pairs, are the rows of that hunk's pairs, and the rows of all hunks are
/// as many as their pairs together.
pub proof fn lemma_rows_per_hunk(
    lhs: Seq<Seq<char>>,
    lhs_styles: StylesModel,
    rhs: Seq<Seq<char>>,
    rhs_styles: StylesModel,
    hunks: Seq<Seq<AlignedPair>>,
    h: int,
)
    requires
        0 <= h < hunks.len(),
    ensures
        hunk_offset(hunks, h) + hunks[h].len() == hunk_offset(hunks, h + 1),
        hunk_offset(hunks, h + 1) <= rendered_pairs(
            lhs,
            lhs_styles,
            rhs,
            rhs_styles,
            flat_alignment(hunks),
        ).len(),
        hunk_offset(hunks, hunks.len() as int) == rendered_pairs(
            lhs,
            lhs_styles,
            rhs,
            rhs_styles,
            flat_alignment(hunks),
        ).len(),
        rendered_pairs(lhs, lhs_styles, rhs, rhs_styles, flat_alignment(hunks)).subrange(
            hunk_offset(hunks, h),
            hunk_offset(hunks, h + 1),
        ) == rendered_pairs(lhs, lhs_styles, rhs, rhs_styles, hunks[h]),
{
    let before = hunks.take(h);
    let upto = hunks.take(h + 1);
    let after = hunks.skip(h + 1);
    assert(upto.drop_last() =~= before);
    assert(upto.last() == hunks[h]);
    assert(hunks =~= upto + after);
    assert(hunks.take(hunks.len() as int) =~= hunks);
    lemma_flat_append(upto, after);
    let all = flat_alignment(hunks);
    let start = hunk_offset(hunks, h);
    let end = hunk_offset(hunks, h + 1);
    assert(all.subrange(start, end) =~= hunks[h]);
    assert(rendered_pairs(lhs, lhs_styles, rhs, rhs_styles, all).subrange(start, end)
        =~= rendered_pairs(lhs, lhs_styles, rhs, rhs_styles, hunks[h]));
}

/// A line with no recorded spans renders as a single untagged run that
/// holds the whole line, or as no run at all where the line is empty.
pub proof fn lemma_unstyled_line(lines: Seq<Seq<char>>, styles: StylesModel, ln: usize)
    requires
        !styles.contains_key(ln),
        ln < lines.len(),
    ensures
        lines[ln as int].len() > 0 ==> rendered_line(lines, styles, ln) == seq![
            (lines[ln as int], Seq::<StyleTag>::empty()),
        ],
        lines[ln as int].len() == 0 ==> rendered_line(lines, styles, ln) == Seq::<
            (Seq<char>, Seq<StyleTag>),
        >::empty(),
{
    let line = lines[ln as int];
    assert(line.subrange(0, line.len() as int) =~= line);
    assert(rendered_line(lines, styles, ln) =~= untagged_run(line, 0, line.len() as int));
}

} // verus!
