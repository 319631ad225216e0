//! Grouping one side's matched positions by line, each with its tags.
use crate::styler::{covered_to, runs_through, styled_runs, styles_view, untagged_run, SpanStyle};
use crate::syntax::{match_tags, span_classes, MatchedPos, SingleLineSpan, StyleTag};
use std::collections::HashMap;
use vstd::prelude::*;

verus! {

/// The styled spans of one side, keyed by line index.
pub type LineStyles = HashMap<usize, Vec<SpanStyle>>;

/// A line-to-spans map as values.
pub open spec fn line_styles_view(m: Map<usize, Vec<SpanStyle>>) -> Map<
    usize,
    Seq<(SingleLineSpan, Seq<StyleTag>)>,
> {
    m.map_values(|v: Vec<SpanStyle>| styles_view(v@))
}

/// The styled span that a matched position becomes on the given side.
pub open spec fn styled_span(is_lhs: bool, mp: MatchedPos) -> (SingleLineSpan, Seq<StyleTag>) {
    (mp.pos, match_tags(is_lhs, mp.kind))
}

/// Whether one of the first `n` positions lies on line `ln`.
pub open spec fn has_line(mps: Seq<MatchedPos>, ln: usize, n: nat) -> bool {
    exists|i: int| 0 <= i < n && #[trigger] mps[i].pos.line.0 == ln
}

/// The styled spans of the first `n` positions that lie on line `ln`, in
/// their input order.
pub open spec fn line_spans(is_lhs: bool, mps: Seq<MatchedPos>, ln: usize, n: nat) -> Seq<
    (SingleLineSpan, Seq<StyleTag>),
>
    decreases n,
{
    if n == 0 {
        seq![]
    } else {
        let prev = line_spans(is_lhs, mps, ln, (n - 1) as nat);
        if mps[n - 1].pos.line.0 == ln {
            prev.push(styled_span(is_lhs, mps[n - 1]))
        } else {
            prev
        }
    }
}

/// The grouping of the first `n` positions: each line on which one of
/// them lies, to the styled spans on it.
pub open spec fn grouped_through(is_lhs: bool, mps: Seq<MatchedPos>, n: nat) -> Map<
    usize,
    Seq<(SingleLineSpan, Seq<StyleTag>)>,
> {
    Map::new(|ln: usize| has_line(mps, ln, n), |ln: usize| line_spans(is_lhs, mps, ln, n))
}

/// The grouping of all positions of a side.
pub open spec fn grouped_styles(is_lhs: bool, mps: Seq<MatchedPos>) -> Map<
    usize,
    Seq<(SingleLineSpan, Seq<StyleTag>)>,
> {
    grouped_through(is_lhs, mps, mps.len())
}

/// Groups the matched positions of one side by line. Each line on which a
/// position lies maps to the spans of the positions on it, in input order,
/// each with its novelty tag and highlight tag.
pub fn apply_styles(is_lhs: bool, mps: &[MatchedPos]) -> (r: LineStyles)
    ensures
        line_styles_view(r@) == grouped_styles(is_lhs, mps@),
{
    broadcast use vstd::std_specs::hash::group_hash_axioms;

    let mut line_styles: LineStyles = HashMap::new();
    let mut i: usize = 0;
    while i < mps.len()
        invariant
            i <= mps@.len(),
            line_styles_view(line_styles@) == grouped_through(is_lhs, mps@, i as nat),
        decreases mps@.len() - i,
    {
        let mp = mps[i];
        let key = mp.pos.line.0;
        let ghost before = line_styles@;
        let mut line_classes = match line_styles.remove(&key) {
            Some(v) => v,
            None => Vec::new(),
        };
        let ghost old_classes = line_classes@;
        line_classes.push((mp.pos, span_classes(is_lhs, &mp.kind)));
        line_styles.insert(key, line_classes);
        i += 1;
        proof {
            let n = i as nat;
            let next = grouped_through(is_lhs, mps@, n);
            let prev = grouped_through(is_lhs, mps@, (n - 1) as nat);
            assert(mps@[n - 1] == mp);
            assert(styles_view(line_classes@) =~= styles_view(old_classes).push(
                styled_span(is_lhs, mp),
            ));
            if before.contains_key(key) {
                assert(prev.contains_key(key));
                assert(styles_view(old_classes) == prev[key]);
            } else {
                assert(!prev.contains_key(key));
                assert(styles_view(old_classes) =~= Seq::<(SingleLineSpan, Seq<StyleTag>)>::empty());
                assert forall|j: int| 0 <= j < n - 1 implies #[trigger] mps@[j].pos.line.0 != key by {
                    if mps@[j].pos.line.0 == key {
                        assert(has_line(mps@, key, (n - 1) as nat));
                    }
                }
                assert(line_spans(is_lhs, mps@, key, (n - 1) as nat) =~= Seq::<
                    (SingleLineSpan, Seq<StyleTag>),
                >::empty()) by {
                    lemma_no_spans_off_line(is_lhs, mps@, key, (n - 1) as nat);
                }
            }
            let new_spans = styles_view(line_classes@);
            assert(line_styles@ == before.remove(key).insert(key, line_classes));
            assert(line_styles_view(line_styles@) =~= line_styles_view(before).insert(
                key,
                new_spans,
            ));
            assert forall|ln: usize| #[trigger] next.contains_key(ln) == prev.insert(
                key,
                new_spans,
            ).contains_key(ln) by {
                if ln == key {
                    assert(mps@[n - 1].pos.line.0 == ln);
                } else if has_line(mps@, ln, n) {
                    let w = choose|j: int| 0 <= j < n && #[trigger] mps@[j].pos.line.0 == ln;
                    assert(mps@[w].pos.line.0 == ln);
                } else {
                    assert forall|j: int| 0 <= j < n - 1 implies #[trigger] mps@[j].pos.line.0
                        != ln by {
                        if mps@[j].pos.line.0 == ln {
                            assert(has_line(mps@, ln, n));
                        }
                    }
                }
            }
            assert(next =~= prev.insert(key, new_spans));
            assert(line_styles_view(line_styles@) =~= next);
        }
    }
    line_styles
}

/// Grouping depends on its inputs alone: two runs on the same side and
/// positions give the same spans for every line.
pub proof fn lemma_grouping_repeatable(
    is_lhs: bool,
    mps: Seq<MatchedPos>,
    first: Map<usize, Vec<SpanStyle>>,
    second: Map<usize, Vec<SpanStyle>>,
)
    requires
        line_styles_view(first) == grouped_styles(is_lhs, mps),
        line_styles_view(second) == grouped_styles(is_lhs, mps),
    ensures
        first.dom() == second.dom(),
        forall|ln: usize| #[trigger] first.contains_key(ln) ==> styles_view(first[ln]@) == styles_view(second[ln]@),
{
    assert(first.dom() =~= line_styles_view(first).dom());
    assert(second.dom() =~= line_styles_view(second).dom());
    assert forall|ln: usize| #[trigger] first.contains_key(ln) implies styles_view(first[ln]@) == styles_view(second[ln]@) by {
        assert(line_styles_view(first)[ln] == line_styles_view(second)[ln]);
    }
}

proof fn lemma_position_in_line_spans(is_lhs: bool, mps: Seq<MatchedPos>, i: int, n: nat)
    requires
        0 <= i < n <= mps.len(),
    ensures
        line_spans(is_lhs, mps, mps[i].pos.line.0, n).contains(styled_span(is_lhs, mps[i])),
    decreases n,
{
    let ln = mps[i].pos.line.0;
    let prev = line_spans(is_lhs, mps, ln, (n - 1) as nat);
    if i == n - 1 {
        assert(line_spans(is_lhs, mps, ln, n)[prev.len() as int] == styled_span(is_lhs, mps[i]));
    } else {
        lemma_position_in_line_spans(is_lhs, mps, i, (n - 1) as nat);
        let k = choose|k: int| 0 <= k < prev.len() && prev[k] == styled_span(is_lhs, mps[i]);
        assert(line_spans(is_lhs, mps, ln, n)[k] == styled_span(is_lhs, mps[i]));
    }
}

proof fn lemma_span_has_run(
    line: Seq<char>,
    styles: Seq<(SingleLineSpan, Seq<StyleTag>)>,
    k: int,
    n: nat,
)
    requires
        0 <= k < n <= styles.len(),
    ensures
        runs_through(line, styles, n).contains(
            (
                line.subrange(styles[k].0.start_col as int, styles[k].0.end_col as int),
                styles[k].1,
            ),
        ),
    decreases n,
{
    let run = (line.subrange(styles[k].0.start_col as int, styles[k].0.end_col as int), styles[k].1);
    let prev = runs_through(line, styles, (n - 1) as nat);
    let gap = untagged_run(line, covered_to(styles, n - 1), styles[n - 1].0.start_col as int);
    let all = runs_through(line, styles, n);
    if k == n - 1 {
        assert(all[all.len() - 1] == run);
    } else {
        lemma_span_has_run(line, styles, k, (n - 1) as nat);
        let j = choose|j: int| 0 <= j < prev.len() && prev[j] == run;
        assert(all[j] == run);
    }
}

/// Every matched position is rendered, within the line it lies on, as a
/// run that holds the text of its span and carries its tags: the novelty
/// tag of its side (for a novel token) and its highlight tag.
pub proof fn lemma_position_rendered(is_lhs: bool, mps: Seq<MatchedPos>, i: int, line: Seq<char>)
    requires
        0 <= i < mps.len(),
    ensures
        grouped_styles(is_lhs, mps).contains_key(mps[i].pos.line.0),
        styled_runs(line, grouped_styles(is_lhs, mps)[mps[i].pos.line.0]).contains(
            (
                line.subrange(mps[i].pos.start_col as int, mps[i].pos.end_col as int),
                match_tags(is_lhs, mps[i].kind),
            ),
        ),
{
    let ln = mps[i].pos.line.0;
    assert(mps[i].pos.line.0 == ln);
    assert(has_line(mps, ln, mps.len()));
    let styles = grouped_styles(is_lhs, mps)[ln];
    lemma_position_in_line_spans(is_lhs, mps, i, mps.len());
    let k = choose|k: int| 0 <= k < styles.len() && styles[k] == styled_span(is_lhs, mps[i]);
    lemma_span_has_run(line, styles, k, styles.len());
    let run = (line.subrange(mps[i].pos.start_col as int, mps[i].pos.end_col as int), match_tags(is_lhs, mps[i].kind));
    let runs = runs_through(line, styles, styles.len());
    let j = choose|j: int| 0 <= j < runs.len() && runs[j] == run;
    assert(styled_runs(line, styles)[j] == run);
}

proof fn lemma_no_spans_off_line(is_lhs: bool, mps: Seq<MatchedPos>, ln: usize, n: nat)
    requires
        n <= mps.len(),
        forall|j: int| 0 <= j < n ==> #[trigger] mps[j].pos.line.0 != ln,
    ensures
        line_spans(is_lhs, mps, ln, n) == Seq::<(SingleLineSpan, Seq<StyleTag>)>::empty(),
    decreases n,
{
    if n > 0 {
        lemma_no_spans_off_line(is_lhs, mps, ln, (n - 1) as nat);
    }
}

} // verus!
