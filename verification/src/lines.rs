//! Styled text: what the cockpit's panels say, piece by piece.

use crate::theme;
use crate::theme::{Color, Slot, Style, Theme};
use vstd::prelude::*;

verus! {

/// A run of text in one style.
#[derive(Debug)]
pub struct Piece {
    pub text: String,
    pub style: Style,
}

/// One line: its pieces from left to right.
#[derive(Debug)]
pub struct Line {
    pub pieces: Vec<Piece>,
}

/// A piece as values.
pub open spec fn said(p: Piece) -> (Seq<char>, Style) {
    (p.text@, p.style)
}

/// Pieces as values.
pub open spec fn all_said(pieces: Seq<Piece>) -> Seq<(Seq<char>, Style)> {
    Seq::new(pieces.len(), |i: int| said(pieces[i]))
}

impl View for Line {
    type V = Seq<(Seq<char>, Style)>;

    open spec fn view(&self) -> Seq<(Seq<char>, Style)> {
        all_said(self.pieces@)
    }
}

/// Lines as values.
pub open spec fn shown(lines: Seq<Line>) -> Seq<Seq<(Seq<char>, Style)>> {
    Seq::new(lines.len(), |i: int| lines[i]@)
}

impl Line {
    /// The empty line.
    pub fn empty() -> (l: Line)
        ensures
            l@ == Seq::<(Seq<char>, Style)>::empty(),
    {
        let l = Line { pieces: Vec::new() };
        assert(l@ =~= Seq::<(Seq<char>, Style)>::empty());
        l
    }

    /// A line of one piece.
    pub fn one(text: String, style: Style) -> (l: Line)
        ensures
            l@ == seq![(text@, style)],
    {
        let mut l = Line::empty();
        l.add(text, style);
        assert(l@ =~= seq![(text@, style)]);
        l
    }

    /// Adds a piece at the right end.
    pub fn add(&mut self, text: String, style: Style)
        ensures
            final(self)@ == old(self)@.push((text@, style)),
    {
        let ghost before = self@;
        self.pieces.push(Piece { text, style });
        assert(self@ =~= before.push((text@, style)));
    }
}

/// Appends a line.
pub fn push_line(lines: &mut Vec<Line>, line: Line)
    ensures
        shown(final(lines)@) == shown(old(lines)@).push(line@),
        final(lines)@.len() == old(lines)@.len() + 1,
{
    let ghost before = shown(lines@);
    lines.push(line);
    assert(shown(lines@) =~= before.push(line@));
}

/// The style with a foreground color.
pub open spec fn tinted(c: Color) -> Style {
    Style { fg: Some(c), ..theme::plain_style() }
}

/// The style made bold.
pub open spec fn strong(s: Style) -> Style {
    Style { bold: true, ..s }
}

/// The style made dim.
pub open spec fn faint(s: Style) -> Style {
    Style { dim: true, ..s }
}

/// The style made italic.
pub open spec fn slanted(s: Style) -> Style {
    Style { italic: true, ..s }
}

/// The plain style with a foreground color.
pub fn tint(c: Color) -> (s: Style)
    ensures
        s == tinted(c),
{
    let mut s = Style::plain();
    s.fg = Some(c);
    s
}

/// Makes a style bold.
pub fn bold(s: Style) -> (r: Style)
    ensures
        r == strong(s),
{
    let mut r = s;
    r.bold = true;
    r
}

/// Makes a style dim.
pub fn dim(s: Style) -> (r: Style)
    ensures
        r == faint(s),
{
    let mut r = s;
    r.dim = true;
    r
}

/// Makes a style italic.
pub fn italic(s: Style) -> (r: Style)
    ensures
        r == slanted(s),
{
    let mut r = s;
    r.italic = true;
    r
}

/// The colors of a theme at its color level.
#[derive(Debug)]
pub struct Paints {
    pub accent: Color,
    pub error: Color,
    pub muted: Color,
    pub good: Color,
    pub info: Color,
    pub mauve: Color,
    /// One per identity rank.
    pub identity: Vec<Color>,
}

/// Whether `c` is the color of a role in a theme.
pub open spec fn paints_role(t: Theme, slot: Slot, c: Color) -> bool {
    theme::projected(theme::role(t.name, slot), t.level, c)
}

impl Paints {
    /// Whether these are the colors of a theme.
    pub open spec fn are_of(&self, t: Theme) -> bool {
        &&& paints_role(t, theme::ACCENT, self.accent)
        &&& paints_role(t, theme::ERROR, self.error)
        &&& paints_role(t, theme::MUTED, self.muted)
        &&& paints_role(t, theme::GOOD, self.good)
        &&& paints_role(t, theme::INFO, self.info)
        &&& paints_role(t, theme::MAUVE, self.mauve)
        &&& self.wf()
        &&& forall|k: int|
            0 <= k < theme::IDENTITY_LEN ==> theme::projected(
                theme::identity_entry(t.name, k),
                t.level,
                #[trigger] self.identity@[k],
            )
    }

    /// Whether every identity rank has a color.
    pub open spec fn wf(&self) -> bool {
        self.identity@.len() == theme::IDENTITY_LEN
    }

    /// The colors of a theme.
    pub fn of(t: &Theme) -> (p: Paints)
        requires
            t.wf(),
        ensures
            p.are_of(*t),
            p.wf(),
    {
        let mut identity: Vec<Color> = Vec::new();
        let mut k: usize = 0;
        while k < theme::IDENTITY_LEN
            invariant
                k <= theme::IDENTITY_LEN,
                t.wf(),
                identity@.len() == k,
                forall|j: int|
                    0 <= j < k ==> theme::projected(
                        theme::identity_entry(t.name, j),
                        t.level,
                        #[trigger] identity@[j],
                    ),
            decreases theme::IDENTITY_LEN - k,
        {
            let c = t.identity(k);
            assert(k as int % 9 == k as int);
            identity.push(c);
            k = k + 1;
        }
        Paints {
            accent: t.color(theme::ACCENT),
            error: t.color(theme::ERROR),
            muted: t.color(theme::MUTED),
            good: t.color(theme::GOOD),
            info: t.color(theme::INFO),
            mauve: t.color(theme::MAUVE),
            identity,
        }
    }

    /// The color of an identity rank; without one, the muted color.
    pub open spec fn of_rank(&self, rank: Option<usize>) -> Color {
        match rank {
            Some(k) => self.identity@[k as int % 9],
            None => self.muted,
        }
    }

    /// Looks up the color of an identity rank.
    pub fn rank_color(&self, rank: Option<usize>) -> (c: Color)
        requires
            self.wf(),
        ensures
            c == self.of_rank(rank),
    {
        match rank {
            Some(k) => self.identity[k % theme::IDENTITY_LEN],
            None => self.muted,
        }
    }
}

/// The paints of a theme are its roles' colors, each in its own place, and one per rank.
pub proof fn law_paints_are_the_roles(p: Paints, t: Theme, k: int)
    requires
        p.are_of(t),
        0 <= k < 9,
    ensures
        theme::projected(theme::role(t.name, Slot::Accent), t.level, p.accent),
        theme::projected(theme::role(t.name, Slot::Error), t.level, p.error),
        theme::projected(theme::role(t.name, Slot::Muted), t.level, p.muted),
        theme::projected(theme::role(t.name, Slot::Good), t.level, p.good),
        theme::projected(theme::role(t.name, Slot::Info), t.level, p.info),
        theme::projected(theme::role(t.name, Slot::Mauve), t.level, p.mauve),
        p.identity@.len() == 9,
        theme::projected(theme::identity_entry(t.name, k), t.level, p.identity@[k]),
{
}

/// Each of the first nine ranks has a color of its own place, the next ones start over, and
/// what has no rank is muted.
pub proof fn law_ranks_have_their_color(p: Paints, k: usize)
    requires
        p.wf(),
    ensures
        k < 9 ==> p.of_rank(Some(k)) == p.identity@[k as int],
        k <= usize::MAX - 9 ==> p.of_rank(Some((k + 9) as usize)) == p.of_rank(Some(k)),
        p.of_rank(None) == p.muted,
{
}

/// A change of style changes what it names and nothing else.
pub proof fn law_styles_change_one_thing(s: Style, c: Color)
    ensures
        tinted(c).fg == Some(c) && tinted(c).bg is None && !tinted(c).bold && !tinted(c).dim,
        strong(s).bold && strong(s).fg == s.fg && strong(s).dim == s.dim && strong(s).italic
            == s.italic,
        faint(s).dim && faint(s).fg == s.fg && faint(s).bold == s.bold && faint(s).italic
            == s.italic,
        slanted(s).italic && slanted(s).fg == s.fg && slanted(s).bold == s.bold && slanted(s).dim
            == s.dim,
{
}

} // verus!
