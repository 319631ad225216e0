use diff_html::classifier::apply_styles;
use diff_html::pairing::{pair_lines, try_pair_lines, AlignedPair, PairedLine};
use diff_html::styler::{apply_line, spans_fit_line, SpanStyle, StyledRun};
use diff_html::syntax::{
    span_classes, AtomKind, LineNumber, MatchKind, MatchedPos, SingleLineSpan, StyleTag,
    TokenKind,
};

fn span(line: usize, start_col: usize, end_col: usize) -> SingleLineSpan {
    SingleLineSpan {
        line: LineNumber(line),
        start_col,
        end_col,
    }
}

fn runs(v: &[(&str, Vec<StyleTag>)]) -> Vec<StyledRun> {
    v.iter().map(|(t, c)| (t.to_string(), c.clone())).collect()
}

fn joined(r: &[StyledRun]) -> String {
    r.iter().map(|(t, _)| t.as_str()).collect()
}

fn atom(kind: AtomKind) -> TokenKind {
    TokenKind::Atom(kind)
}

fn mp(kind: MatchKind, line: usize, start: usize, end: usize) -> MatchedPos {
    MatchedPos {
        kind,
        pos: span(line, start, end),
    }
}

fn lines(v: &[&str]) -> Vec<String> {
    v.iter().map(|s| s.to_string()).collect()
}

fn classes(r: &StyledRun) -> Vec<&'static str> {
    r.1.iter().map(|t| t.class_name()).collect()
}

#[test]
fn splits_line_into_tagged_and_gap_runs() {
    let styles: Vec<SpanStyle> = vec![
        (span(0, 0, 3), vec![StyleTag::Keyword]),
        (span(0, 8, 9), vec![StyleTag::String]),
    ];
    let r = apply_line("let x = 1;", &styles);
    assert_eq!(
        r,
        runs(&[
            ("let", vec![StyleTag::Keyword]),
            (" x = ", vec![]),
            ("1", vec![StyleTag::String]),
            (";", vec![]),
        ])
    );
}

#[test]
fn no_styles_gives_one_untagged_run() {
    let r = apply_line("hello world", &[]);
    assert_eq!(r, runs(&[("hello world", vec![])]));
}

#[test]
fn empty_line_without_styles_gives_no_runs() {
    let r = apply_line("", &[]);
    assert!(r.is_empty());
}

#[test]
fn adjacent_spans_leave_no_empty_runs() {
    let styles: Vec<SpanStyle> = vec![
        (span(0, 0, 2), vec![StyleTag::Keyword]),
        (span(0, 2, 4), vec![StyleTag::Comment]),
    ];
    let r = apply_line("abcd", &styles);
    assert_eq!(
        r,
        runs(&[("ab", vec![StyleTag::Keyword]), ("cd", vec![StyleTag::Comment])])
    );
}

#[test]
fn span_at_line_end_gives_no_trailing_run() {
    let styles: Vec<SpanStyle> = vec![(span(0, 3, 6), vec![StyleTag::String])];
    let r = apply_line("ab \"x\"", &styles);
    assert_eq!(r, runs(&[("ab ", vec![]), ("\"x\"", vec![StyleTag::String])]));
}

#[test]
fn columns_count_codepoints() {
    let styles: Vec<SpanStyle> = vec![
        (span(0, 1, 2), vec![StyleTag::NovelLhs]),
        (span(0, 6, 11), vec![StyleTag::Comment]),
    ];
    let r = apply_line("héllo wörld!", &styles);
    assert_eq!(
        r,
        runs(&[
            ("h", vec![]),
            ("é", vec![StyleTag::NovelLhs]),
            ("llo ", vec![]),
            ("wörld", vec![StyleTag::Comment]),
            ("!", vec![]),
        ])
    );
}

#[test]
fn runs_join_back_to_the_line() {
    let line = "fn main() { let ä = \"ö\"; }";
    let cases: Vec<Vec<SpanStyle>> = vec![
        vec![],
        vec![(span(0, 0, 2), vec![StyleTag::Keyword])],
        vec![
            (span(0, 0, 2), vec![StyleTag::Keyword]),
            (span(0, 12, 15), vec![StyleTag::Keyword]),
            (span(0, 20, 23), vec![StyleTag::String, StyleTag::NovelRhs]),
        ],
        vec![(span(0, 5, 5), vec![StyleTag::Comment])],
        vec![(span(0, 0, 26), vec![])],
    ];
    for styles in cases {
        assert!(spans_fit_line(line, &styles));
        let r = apply_line(line, &styles);
        assert_eq!(joined(&r), line);
    }
}

#[test]
fn runs_follow_column_order() {
    let line = "0123456789";
    let styles: Vec<SpanStyle> = vec![
        (span(0, 2, 4), vec![StyleTag::Keyword]),
        (span(0, 4, 5), vec![StyleTag::String]),
        (span(0, 7, 9), vec![StyleTag::Comment]),
    ];
    let r = apply_line(line, &styles);
    let mut col = 0;
    for (text, _) in &r {
        let n = text.chars().count();
        assert_eq!(text.as_str(), &line[col..col + n]);
        col += n;
    }
    assert_eq!(col, 10);
    assert_eq!(r.len(), 6);
}

#[test]
fn spans_fit_line_rejects_bad_spans() {
    let ok: Vec<SpanStyle> = vec![(span(0, 0, 3), vec![]), (span(0, 3, 4), vec![])];
    assert!(spans_fit_line("abcd", &ok));
    let past_end: Vec<SpanStyle> = vec![(span(0, 2, 5), vec![])];
    assert!(!spans_fit_line("abcd", &past_end));
    let reversed: Vec<SpanStyle> = vec![(span(0, 3, 2), vec![])];
    assert!(!spans_fit_line("abcd", &reversed));
    let overlapping: Vec<SpanStyle> = vec![(span(0, 0, 3), vec![]), (span(0, 2, 4), vec![])];
    assert!(!spans_fit_line("abcd", &overlapping));
    assert!(spans_fit_line("ä", &[(span(0, 0, 1), vec![])]));
    assert!(!spans_fit_line("ä", &[(span(0, 0, 2), vec![])]));
}

#[test]
fn highlight_table_for_unchanged_atoms() {
    let expect = [
        (AtomKind::Normal, vec![]),
        (AtomKind::String, vec![StyleTag::String]),
        (AtomKind::Type, vec![StyleTag::Keyword]),
        (AtomKind::Comment, vec![StyleTag::Comment]),
        (AtomKind::Keyword, vec![StyleTag::Keyword]),
    ];
    for (kind, tags) in expect {
        for is_lhs in [true, false] {
            let k = MatchKind::UnchangedToken {
                highlight: atom(kind),
            };
            assert_eq!(span_classes(is_lhs, &k), tags);
        }
    }
}

#[test]
fn class_names_of_tags() {
    assert_eq!(StyleTag::NovelLhs.class_name(), "novel-lhs");
    assert_eq!(StyleTag::NovelRhs.class_name(), "novel-rhs");
    assert_eq!(StyleTag::String.class_name(), "pl-s");
    assert_eq!(StyleTag::Keyword.class_name(), "pl-k");
    assert_eq!(StyleTag::Comment.class_name(), "pl-c");
}

#[test]
fn novel_tokens_get_their_side_tag_first() {
    let novel = MatchKind::Novel {
        highlight: atom(AtomKind::Comment),
    };
    assert_eq!(
        span_classes(true, &novel),
        vec![StyleTag::NovelLhs, StyleTag::Comment]
    );
    assert_eq!(
        span_classes(false, &novel),
        vec![StyleTag::NovelRhs, StyleTag::Comment]
    );
    let word = MatchKind::NovelWord {
        highlight: atom(AtomKind::Normal),
    };
    assert_eq!(span_classes(true, &word), vec![StyleTag::NovelLhs]);
    assert_eq!(span_classes(false, &word), vec![StyleTag::NovelRhs]);
}

#[test]
fn unchanged_and_line_part_get_no_novelty_tag() {
    for is_lhs in [true, false] {
        let unchanged = MatchKind::UnchangedToken {
            highlight: atom(AtomKind::Keyword),
        };
        assert_eq!(span_classes(is_lhs, &unchanged), vec![StyleTag::Keyword]);
        let part = MatchKind::NovelLinePart {
            highlight: atom(AtomKind::String),
        };
        assert_eq!(span_classes(is_lhs, &part), vec![StyleTag::String]);
    }
}

#[test]
fn delimiters_get_no_highlight_tag() {
    let unchanged = MatchKind::UnchangedToken {
        highlight: TokenKind::Delimiter,
    };
    assert_eq!(span_classes(true, &unchanged), vec![]);
    let novel = MatchKind::Novel {
        highlight: TokenKind::Delimiter,
    };
    assert_eq!(span_classes(false, &novel), vec![StyleTag::NovelRhs]);
}

#[test]
fn grouping_by_line_keeps_input_order() {
    let mps = vec![
        mp(MatchKind::Novel { highlight: atom(AtomKind::Keyword) }, 0, 0, 3),
        mp(MatchKind::UnchangedToken { highlight: atom(AtomKind::String) }, 2, 1, 4),
        mp(MatchKind::NovelLinePart { highlight: TokenKind::Delimiter }, 0, 5, 6),
    ];
    let g = apply_styles(true, &mps);
    assert_eq!(g.len(), 2);
    assert_eq!(
        g[&0],
        vec![
            (span(0, 0, 3), vec![StyleTag::NovelLhs, StyleTag::Keyword]),
            (span(0, 5, 6), vec![]),
        ]
    );
    assert_eq!(g[&2], vec![(span(2, 1, 4), vec![StyleTag::String])]);
    assert!(!g.contains_key(&1));
    let g_rhs = apply_styles(false, &mps);
    assert_eq!(
        g_rhs[&0][0].1,
        vec![StyleTag::NovelRhs, StyleTag::Keyword]
    );
}

#[test]
fn grouping_twice_gives_the_same_result() {
    let mps = vec![
        mp(MatchKind::NovelWord { highlight: atom(AtomKind::Type) }, 3, 0, 1),
        mp(MatchKind::UnchangedToken { highlight: atom(AtomKind::Comment) }, 1, 2, 8),
        mp(MatchKind::Novel { highlight: atom(AtomKind::Normal) }, 3, 4, 6),
    ];
    for is_lhs in [true, false] {
        assert_eq!(apply_styles(is_lhs, &mps), apply_styles(is_lhs, &mps));
    }
}

#[test]
fn grouping_no_positions_gives_empty_map() {
    assert!(apply_styles(true, &[]).is_empty());
}

#[test]
fn novel_keyword_on_right_side_is_tagged() {
    let lhs = lines(&["a", "b", "c", "d", "let x = 1;"]);
    let rhs = lines(&["a", "b", "c", "d", "&&mut x"]);
    let rhs_mps = vec![mp(
        MatchKind::Novel {
            highlight: atom(AtomKind::Keyword),
        },
        4,
        2,
        5,
    )];
    let hunks: Vec<Vec<AlignedPair>> = vec![vec![(Some(LineNumber(4)), Some(LineNumber(4)))]];
    let rows = pair_lines(&lhs, &rhs, &[], &rhs_mps, &hunks);
    assert_eq!(rows.len(), 1);
    let (l, r) = &rows[0];
    let (l_num, l_runs) = l.as_ref().unwrap();
    assert_eq!(*l_num, LineNumber(4));
    assert_eq!(*l_runs, runs(&[("let x = 1;", vec![])]));
    let (r_num, r_runs) = r.as_ref().unwrap();
    assert_eq!(*r_num, LineNumber(4));
    assert_eq!(
        *r_runs,
        runs(&[
            ("&&", vec![]),
            ("mut", vec![StyleTag::NovelRhs, StyleTag::Keyword]),
            (" x", vec![]),
        ])
    );
    assert_eq!(classes(&r_runs[1]), vec!["novel-rhs", "pl-k"]);
}

#[test]
fn one_row_per_aligned_pair_in_hunk_order() {
    let lhs = lines(&["l0", "l1", "l2", "l3"]);
    let rhs = lines(&["r0", "r1", "r2"]);
    let hunks: Vec<Vec<AlignedPair>> = vec![
        vec![
            (Some(LineNumber(0)), Some(LineNumber(0))),
            (Some(LineNumber(1)), None),
        ],
        vec![],
        vec![
            (None, Some(LineNumber(1))),
            (Some(LineNumber(3)), Some(LineNumber(2))),
            (Some(LineNumber(2)), None),
        ],
    ];
    let rows: Vec<PairedLine> = pair_lines(&lhs, &rhs, &[], &[], &hunks);
    assert_eq!(rows.len(), 5);
    let numbers: Vec<(Option<usize>, Option<usize>)> = rows
        .iter()
        .map(|(l, r)| (l.as_ref().map(|x| x.0 .0), r.as_ref().map(|x| x.0 .0)))
        .collect();
    assert_eq!(
        numbers,
        vec![
            (Some(0), Some(0)),
            (Some(1), None),
            (None, Some(1)),
            (Some(3), Some(2)),
            (Some(2), None),
        ]
    );
    let (l3, r2) = (&rows[3].0, &rows[3].1);
    assert_eq!(l3.as_ref().unwrap().1, runs(&[("l3", vec![])]));
    assert_eq!(r2.as_ref().unwrap().1, runs(&[("r2", vec![])]));
}

#[test]
fn no_hunks_gives_no_rows() {
    let lhs = lines(&["a"]);
    let rows = pair_lines(&lhs, &lhs, &[], &[], &vec![]);
    assert!(rows.is_empty());
}

#[test]
fn unstyled_line_renders_as_one_run() {
    let lhs = lines(&["first", "", "third"]);
    let lhs_mps = vec![mp(
        MatchKind::UnchangedToken {
            highlight: atom(AtomKind::String),
        },
        0,
        0,
        5,
    )];
    let hunks: Vec<Vec<AlignedPair>> = vec![vec![
        (Some(LineNumber(2)), None),
        (Some(LineNumber(1)), None),
        (Some(LineNumber(0)), None),
    ]];
    let rows = pair_lines(&lhs, &lhs, &lhs_mps, &[], &hunks);
    assert_eq!(rows[0].0.as_ref().unwrap().1, runs(&[("third", vec![])]));
    assert!(rows[1].0.as_ref().unwrap().1.is_empty());
    assert_eq!(
        rows[2].0.as_ref().unwrap().1,
        runs(&[("first", vec![StyleTag::String])])
    );
}

#[test]
fn checked_pairing_matches_unchecked_on_good_input() {
    let lhs = lines(&["let a = 1;", "b"]);
    let rhs = lines(&["let a = 2;"]);
    let lhs_mps = vec![
        mp(MatchKind::UnchangedToken { highlight: atom(AtomKind::Keyword) }, 0, 0, 3),
        mp(MatchKind::Novel { highlight: atom(AtomKind::Normal) }, 0, 8, 9),
    ];
    let rhs_mps = vec![mp(MatchKind::Novel { highlight: atom(AtomKind::Normal) }, 0, 8, 9)];
    let hunks: Vec<Vec<AlignedPair>> = vec![vec![
        (Some(LineNumber(0)), Some(LineNumber(0))),
        (Some(LineNumber(1)), None),
    ]];
    let checked = try_pair_lines(&lhs, &rhs, &lhs_mps, &rhs_mps, &hunks);
    let plain = pair_lines(&lhs, &rhs, &lhs_mps, &rhs_mps, &hunks);
    assert_eq!(checked, Some(plain.clone()));
    assert_eq!(
        plain[0].0.as_ref().unwrap().1,
        runs(&[
            ("let", vec![StyleTag::Keyword]),
            (" a = ", vec![]),
            ("1", vec![StyleTag::NovelLhs]),
            (";", vec![]),
        ])
    );
}

#[test]
fn checked_pairing_refuses_line_out_of_range() {
    let lhs = lines(&["a"]);
    let hunks: Vec<Vec<AlignedPair>> = vec![vec![(Some(LineNumber(1)), None)]];
    assert_eq!(try_pair_lines(&lhs, &lhs, &[], &[], &hunks), None);
    let hunks_rhs: Vec<Vec<AlignedPair>> = vec![vec![(None, Some(LineNumber(3)))]];
    assert_eq!(try_pair_lines(&lhs, &lhs, &[], &[], &hunks_rhs), None);
}

#[test]
fn checked_pairing_refuses_bad_spans() {
    let lhs = lines(&["abc"]);
    let too_long = vec![mp(MatchKind::Novel { highlight: TokenKind::Delimiter }, 0, 1, 4)];
    let hunks: Vec<Vec<AlignedPair>> = vec![vec![(Some(LineNumber(0)), Some(LineNumber(0)))]];
    assert_eq!(try_pair_lines(&lhs, &lhs, &too_long, &[], &hunks), None);
    assert_eq!(try_pair_lines(&lhs, &lhs, &[], &too_long, &hunks), None);
    let overlapping = vec![
        mp(MatchKind::Novel { highlight: TokenKind::Delimiter }, 0, 0, 2),
        mp(MatchKind::Novel { highlight: TokenKind::Delimiter }, 0, 1, 3),
    ];
    assert_eq!(try_pair_lines(&lhs, &lhs, &overlapping, &[], &hunks), None);
    let elsewhere = vec![mp(MatchKind::Novel { highlight: TokenKind::Delimiter }, 5, 0, 9)];
    assert!(try_pair_lines(&lhs, &lhs, &elsewhere, &[], &hunks).is_some());
}
