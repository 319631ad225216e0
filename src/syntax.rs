//! The matched-token data that the renderer reads, and the style tags
//! that it produces.
use vstd::prelude::*;

verus! {

/// Zero-based index of a line within one side's text.
#[derive(Clone, Copy, Debug, PartialEq, Eq, Hash, Structural)]
pub struct LineNumber(pub usize);

/// The half-open column range `[start_col, end_col)` of a token within
/// one line, in codepoints.
#[derive(Clone, Copy, Debug, PartialEq, Eq, Structural)]
pub struct SingleLineSpan {
    pub line: LineNumber,
    pub start_col: usize,
    pub end_col: usize,
}

/// Highlight category of a leaf token.
#[derive(Clone, Copy, Debug, PartialEq, Eq, Structural)]
pub enum AtomKind {
    Normal,
    String,
    Type,
    Comment,
    Keyword,
}

/// Highlight descriptor of a token.
#[derive(Clone, Copy, Debug, PartialEq, Eq, Structural)]
pub enum TokenKind {
    Delimiter,
    Atom(AtomKind),
}

/// How a token was matched against the other side.
#[derive(Clone, Copy, Debug, PartialEq, Eq, Structural)]
pub enum MatchKind {
    UnchangedToken { highlight: TokenKind },
    Novel { highlight: TokenKind },
    NovelLinePart { highlight: TokenKind },
    NovelWord { highlight: TokenKind },
}

/// One matched token occurrence on one side.
#[derive(Clone, Copy, Debug, PartialEq, Eq, Structural)]
pub struct MatchedPos {
    pub kind: MatchKind,
    pub pos: SingleLineSpan,
}

/// A style class attached to a run of text.
#[derive(Clone, Copy, Debug, PartialEq, Eq, Structural)]
pub enum StyleTag {
    NovelLhs,
    NovelRhs,
    String,
    Keyword,
    Comment,
}

impl MatchKind {
    /// The highlight descriptor that every kind carries.
    pub open spec fn highlight_of(self) -> TokenKind {
        match self {
            MatchKind::UnchangedToken { highlight } => highlight,
            MatchKind::Novel { highlight } => highlight,
            MatchKind::NovelLinePart { highlight } => highlight,
            MatchKind::NovelWord { highlight } => highlight,
        }
    }

    /// Whether the kind marks content that differs from the other side
    /// and is styled as such.
    pub open spec fn is_styled_novel(self) -> bool {
        match self {
            MatchKind::Novel { .. } => true,
            MatchKind::NovelWord { .. } => true,
            _ => false,
        }
    }
}

impl StyleTag {
    /// The class name written into the markup.
    pub open spec fn spec_class_name(self) -> Seq<char> {
        match self {
            StyleTag::NovelLhs => seq!['n', 'o', 'v', 'e', 'l', '-', 'l', 'h', 's'],
            StyleTag::NovelRhs => seq!['n', 'o', 'v', 'e', 'l', '-', 'r', 'h', 's'],
            StyleTag::String => seq!['p', 'l', '-', 's'],
            StyleTag::Keyword => seq!['p', 'l', '-', 'k'],
            StyleTag::Comment => seq!['p', 'l', '-', 'c'],
        }
    }

    pub fn class_name(&self) -> (r: &'static str)
        ensures
            r@ == self.spec_class_name(),
    {
        match self {
            StyleTag::NovelLhs => {
                proof { reveal_strlit("novel-lhs"); }
                "novel-lhs"
            },
            StyleTag::NovelRhs => {
                proof { reveal_strlit("novel-rhs"); }
                "novel-rhs"
            },
            StyleTag::String => {
                proof { reveal_strlit("pl-s"); }
                "pl-s"
            },
            StyleTag::Keyword => {
                proof { reveal_strlit("pl-k"); }
                "pl-k"
            },
            StyleTag::Comment => {
                proof { reveal_strlit("pl-c"); }
                "pl-c"
            },
        }
    }
}

/// The tag that an atom's highlight category contributes, if any.
pub open spec fn atom_tags(kind: AtomKind) -> Seq<StyleTag> {
    match kind {
        AtomKind::Normal => seq![],
        AtomKind::String => seq![StyleTag::String],
        AtomKind::Type => seq![StyleTag::Keyword],
        AtomKind::Comment => seq![StyleTag::Comment],
        AtomKind::Keyword => seq![StyleTag::Keyword],
    }
}

/// The tag that a highlight descriptor contributes: only atoms have one.
pub open spec fn highlight_tags(highlight: TokenKind) -> Seq<StyleTag> {
    match highlight {
        TokenKind::Atom(kind) => atom_tags(kind),
        _ => seq![],
    }
}

/// The side-specific novelty tag of a match kind, if any.
pub open spec fn novelty_tags(is_lhs: bool, kind: MatchKind) -> Seq<StyleTag> {
    if kind.is_styled_novel() {
        seq![if is_lhs { StyleTag::NovelLhs } else { StyleTag::NovelRhs }]
    } else {
        seq![]
    }
}

/// All tags of a matched token: the novelty tag, then the highlight tag.
pub open spec fn match_tags(is_lhs: bool, kind: MatchKind) -> Seq<StyleTag> {
    novelty_tags(is_lhs, kind) + highlight_tags(kind.highlight_of())
}

/// The style tags of a matched token on the given side.
pub fn span_classes(is_lhs: bool, kind: &MatchKind) -> (r: Vec<StyleTag>)
    ensures
        r@ == match_tags(is_lhs, *kind),
{
    let mut classes: Vec<StyleTag> = Vec::new();
    match kind {
        MatchKind::Novel { .. } | MatchKind::NovelWord { .. } => {
            classes.push(if is_lhs { StyleTag::NovelLhs } else { StyleTag::NovelRhs });
        },
        MatchKind::UnchangedToken { .. } => {},
        MatchKind::NovelLinePart { .. } => {
            // A whole-line novelty marker gets no extra style: the changed
            // words within it carry their own.
        },
    }
    let highlight = match kind {
        MatchKind::UnchangedToken { highlight } => *highlight,
        MatchKind::Novel { highlight } => *highlight,
        MatchKind::NovelLinePart { highlight } => *highlight,
        MatchKind::NovelWord { highlight } => *highlight,
    };
    match highlight {
        TokenKind::Atom(atom) => match atom {
            AtomKind::Normal => {},
            AtomKind::String => classes.push(StyleTag::String),
            AtomKind::Type => classes.push(StyleTag::Keyword),
            AtomKind::Comment => classes.push(StyleTag::Comment),
            AtomKind::Keyword => classes.push(StyleTag::Keyword),
        },
        _ => {},
    }
    assert(classes@ =~= match_tags(is_lhs, *kind));
    classes
}

/// A novel token is tagged first with the novelty tag of its side; an
/// unchanged token carries no novelty tag on either side.
pub proof fn lemma_novelty_tag_by_side(highlight: TokenKind)
    ensures
        match_tags(true, MatchKind::Novel { highlight })[0] == StyleTag::NovelLhs,
        match_tags(false, MatchKind::Novel { highlight })[0] == StyleTag::NovelRhs,
        forall|is_lhs: bool|
            !(#[trigger] match_tags(is_lhs, MatchKind::UnchangedToken { highlight })).contains(
                StyleTag::NovelLhs,
            ) && !match_tags(is_lhs, MatchKind::UnchangedToken { highlight }).contains(
                StyleTag::NovelRhs,
            ),
{
    assert forall|is_lhs: bool|
        !(#[trigger] match_tags(is_lhs, MatchKind::UnchangedToken { highlight })).contains(
            StyleTag::NovelLhs,
        ) && !match_tags(is_lhs, MatchKind::UnchangedToken { highlight }).contains(
            StyleTag::NovelRhs,
        ) by {
        let t = match_tags(is_lhs, MatchKind::UnchangedToken { highlight });
        assert(t =~= highlight_tags(highlight));
        if t.contains(StyleTag::NovelLhs) {
            let k = choose|k: int| 0 <= k < t.len() && t[k] == StyleTag::NovelLhs;
        }
        if t.contains(StyleTag::NovelRhs) {
            let k = choose|k: int| 0 <= k < t.len() && t[k] == StyleTag::NovelRhs;
        }
    }
}

/// The highlight table: an unchanged atom is tagged by its category alone
/// (`Normal` with nothing, `String` as a string, `Type` and `Keyword` as a
/// keyword, `Comment` as a comment), a novel atom with its side's novelty
/// tag followed by the same tag, and a non-atom token with no highlight tag.
pub proof fn lemma_highlight_table(is_lhs: bool, atom: AtomKind)
    ensures
        match_tags(is_lhs, MatchKind::UnchangedToken { highlight: TokenKind::Atom(AtomKind::Normal) })
            == Seq::<StyleTag>::empty(),
        match_tags(is_lhs, MatchKind::UnchangedToken { highlight: TokenKind::Atom(AtomKind::String) })
            == seq![StyleTag::String],
        match_tags(is_lhs, MatchKind::UnchangedToken { highlight: TokenKind::Atom(AtomKind::Type) })
            == seq![StyleTag::Keyword],
        match_tags(is_lhs, MatchKind::UnchangedToken { highlight: TokenKind::Atom(AtomKind::Comment) })
            == seq![StyleTag::Comment],
        match_tags(is_lhs, MatchKind::UnchangedToken { highlight: TokenKind::Atom(AtomKind::Keyword) })
            == seq![StyleTag::Keyword],
        match_tags(is_lhs, MatchKind::Novel { highlight: TokenKind::Atom(atom) }) == seq![
            if is_lhs {
                StyleTag::NovelLhs
            } else {
                StyleTag::NovelRhs
            },
        ] + atom_tags(atom),
        match_tags(is_lhs, MatchKind::UnchangedToken { highlight: TokenKind::Delimiter })
            == Seq::<StyleTag>::empty(),
{
    assert(match_tags(is_lhs, MatchKind::UnchangedToken { highlight: TokenKind::Atom(AtomKind::Normal) })
        =~= Seq::<StyleTag>::empty());
    assert(match_tags(is_lhs, MatchKind::UnchangedToken { highlight: TokenKind::Atom(AtomKind::String) })
        =~= seq![StyleTag::String]);
    assert(match_tags(is_lhs, MatchKind::UnchangedToken { highlight: TokenKind::Atom(AtomKind::Type) })
        =~= seq![StyleTag::Keyword]);
    assert(match_tags(is_lhs, MatchKind::UnchangedToken { highlight: TokenKind::Atom(AtomKind::Comment) })
        =~= seq![StyleTag::Comment]);
    assert(match_tags(is_lhs, MatchKind::UnchangedToken { highlight: TokenKind::Atom(AtomKind::Keyword) })
        =~= seq![StyleTag::Keyword]);
    assert(match_tags(is_lhs, MatchKind::UnchangedToken { highlight: TokenKind::Delimiter })
        =~= Seq::<StyleTag>::empty());
}

/// A copy of a tag list.
pub(crate) fn copy_tags(tags: &Vec<StyleTag>) -> (r: Vec<StyleTag>)
    ensures
        r@ == tags@,
{
    let mut r: Vec<StyleTag> = Vec::new();
    let mut i: usize = 0;
    while i < tags.len()
        invariant
            i <= tags@.len(),
            r@ == tags@.subrange(0, i as int),
        decreases tags@.len() - i,
    {
        r.push(tags[i]);
        i += 1;
    }
    assert(r@ =~= tags@);
    r
}

} // verus!
