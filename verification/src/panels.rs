//! What the header, the metric cards, the footer, the basket strip and the
//! notifications say, and where they stand.

use crate::fmt;
use crate::fmt::path_segments;
use crate::layout::Area;
use crate::lines::{
    bold, dim, faint, italic, slanted, strong, tint, tinted, Line, Paints, push_line, shown,
};
use crate::model::{DirId, ViewSnapshot};
use crate::size;
use crate::size::{human_string, push_human};
use crate::state::{show_hardlink_note, show_updating_note};
use crate::text;
use crate::text::{copy_str, dec_string, push_dec};
use crate::theme;
use crate::theme::{Color, Style};
use vstd::prelude::*;
use vstd::string::*;

verus! {

/// The signature that opens the header.
pub open spec fn signature_text(ascii: bool) -> Seq<char> {
    if ascii {
        "camembert"@
    } else {
        "▞ camembert"@
    }
}

/// The scan's status on the header line.
pub open spec fn status_said(complete: bool, spinner: char, paints: Paints) -> (Seq<char>, Style) {
    if complete {
        ("done"@, tinted(paints.good))
    } else {
        (seq![spinner] + " scanning"@, tinted(paints.accent))
    }
}

/// The header line: signature, path and status.
pub open spec fn header_said(
    path: Seq<char>,
    complete: bool,
    spinner: char,
    ascii: bool,
    paints: Paints,
) -> Seq<(Seq<char>, Style)> {
    let plain = theme::plain_style();
    seq![
        (" "@, plain),
        (signature_text(ascii), strong(tinted(paints.accent))),
        ("  "@, plain),
        (path, strong(plain)),
        ("  "@, plain),
        status_said(complete, spinner, paints),
    ]
}

fn signature(ascii: bool) -> (s: &'static str)
    ensures
        s@ == signature_text(ascii),
{
    if ascii {
        "camembert"
    } else {
        "▞ camembert"
    }
}

/// The header line.
pub fn header_line(path: &str, complete: bool, spinner: char, ascii: bool, paints: &Paints) -> (l:
    Line)
    ensures
        l@ == header_said(path@, complete, spinner, ascii, *paints),
{
    let plain = Style::plain();
    let mut l = Line::empty();
    l.add(copy_str(" "), plain);
    l.add(copy_str(signature(ascii)), bold(tint(paints.accent)));
    l.add(copy_str("  "), plain);
    l.add(copy_str(path), bold(plain));
    l.add(copy_str("  "), plain);
    if complete {
        l.add(copy_str("done"), tint(paints.good));
    } else {
        let mut status = String::new();
        status.push(spinner);
        status.append(" scanning");
        assert(status@ =~= seq![spinner] + " scanning"@);
        l.add(status, tint(paints.accent));
    }
    l
}

/// The ancestor that a click on component `i` of `total` jumps to: none from the
/// last one, which is the viewed directory; the scan root from those before the
/// first descend.
pub open spec fn crumb_target(i: int, total: nat, stack: Seq<DirId>) -> Option<DirId> {
    let above = if total >= stack.len() {
        (total - stack.len()) as int
    } else {
        0
    };
    let k = if i < above {
        0
    } else {
        i - above + 1
    };
    if i + 1 == total || k >= stack.len() {
        None
    } else {
        Some(stack[k])
    }
}

/// The column at which the path starts on the header line.
pub open spec fn path_column(x: u16, ascii: bool) -> int {
    x + 3 + signature_text(ascii).len()
}

/// Whether `crumbs` are the clickable components of a path on the header line.
pub open spec fn are_crumbs(
    path: Seq<char>,
    stack: Seq<DirId>,
    x: u16,
    ascii: bool,
    crumbs: Seq<(u16, u16, Option<DirId>)>,
) -> bool {
    exists|segments: Seq<(usize, usize)>|
        {
            &&& #[trigger] fmt::are_segments(path, false, segments)
            &&& crumbs.len() == segments.len()
            &&& forall|i: int|
                0 <= i < crumbs.len() ==> is_crumb(
                    #[trigger] crumbs[i],
                    segments[i],
                    path_column(x, ascii),
                    crumb_target(i, segments.len(), stack),
                )
        }
}

/// Whether a crumb shows a component.
pub open spec fn is_crumb(
    crumb: (u16, u16, Option<DirId>),
    segment: (usize, usize),
    column: int,
    target: Option<DirId>,
) -> bool {
    crumb.0 == column + segment.0 && crumb.1 == column + segment.1 && crumb.2 == target
}

/// How many characters the signature has.
pub open spec fn signature_columns(ascii: bool) -> nat {
    if ascii {
        9
    } else {
        11
    }
}

/// Counts the characters of the signature.
pub fn signature_width(ascii: bool) -> (w: u16)
    ensures
        w == signature_columns(ascii),
{
    if ascii {
        9
    } else {
        11
    }
}

/// The clickable components of the path, as column ranges with the ancestor that
/// each jumps to.
pub fn breadcrumb(path: &str, stack: &[DirId], x: u16, ascii: bool) -> (crumbs: Vec<
    (u16, u16, Option<DirId>),
>)
    requires
        x + 3 + signature_columns(ascii) + path@.len() <= u16::MAX,
    ensures
        are_crumbs(path@, stack@, x, ascii, crumbs@),
{
    proof {
        reveal_strlit("camembert");
        reveal_strlit("▞ camembert");
    }
    let sig = signature(ascii);
    let column: u16 = x + 3 + sig.unicode_len() as u16;
    let segments = path_segments(path);
    let total: usize = segments.len();
    let above: usize = if total >= stack.len() {
        total - stack.len()
    } else {
        0
    };
    let mut crumbs: Vec<(u16, u16, Option<DirId>)> = Vec::new();
    let mut i: usize = 0;
    while i < total
        invariant
            i <= total,
            total == segments@.len(),
            above == (if total >= stack@.len() {
                total - stack@.len()
            } else {
                0
            }),
            column as int == path_column(x, ascii),
            fmt::are_segments(path@, false, segments@),
            x + 3 + signature_columns(ascii) + path@.len() <= u16::MAX,
            signature_text(ascii).len() == signature_columns(ascii),
            crumbs@.len() == i,
            forall|k: int|
                0 <= k < i ==> is_crumb(
                    #[trigger] crumbs@[k],
                    segments@[k],
                    path_column(x, ascii),
                    crumb_target(k, segments@.len(), stack@),
                ),
        decreases total - i,
    {
        let (start, end) = segments[i];
        assert(fmt::is_component(path@, false, segments@[i as int].0, segments@[i as int].1));
        let k: usize = if i < above {
            0
        } else {
            i - above + 1
        };
        let target: Option<DirId> = if i + 1 == total || k >= stack.len() {
            None
        } else {
            Some(stack[k])
        };
        crumbs.push((column + start as u16, column + end as u16, target));
        i = i + 1;
    }
    crumbs
}

/// A metric card.
#[derive(Debug)]
pub struct Card {
    pub label: &'static str,
    pub value: String,
    pub accent: Color,
}

/// Whether a card shows a label and a value in a color.
pub open spec fn is_card(c: Card, label: Seq<char>, value: Seq<char>, accent: Color) -> bool {
    c.label@ == label && c.value@ == value && c.accent == accent
}

/// The metric cards of a snapshot: total size, entries, errors and hardlinks.
/// The errors card has a color of its own only where there are errors.
pub fn metric_cards(snapshot: &ViewSnapshot, paints: &Paints) -> (cards: Vec<Card>)
    ensures
        cards@.len() == 4,
        is_card(cards@[0], "total"@, size::human(snapshot.stats.disk_bytes), paints.accent),
        is_card(cards@[1], "entries"@, text::dec(snapshot.stats.entries as nat), paints.info),
        is_card(
            cards@[2],
            "errors"@,
            text::dec(snapshot.stats.errors as nat),
            if snapshot.stats.errors > 0 {
                paints.error
            } else {
                paints.muted
            },
        ),
        is_card(
            cards@[3],
            "hardlinks"@,
            text::dec(snapshot.hardlink_inodes as nat),
            paints.mauve,
        ),
        cards@[ERRORS_CARD as int].label@ == "errors"@,
{
    let stats = &snapshot.stats;
    let mut cards: Vec<Card> = Vec::new();
    cards.push(
        Card { label: "total", value: human_string(stats.disk_bytes), accent: paints.accent },
    );
    cards.push(
        Card { label: "entries", value: dec_string(stats.entries as u128), accent: paints.info },
    );
    cards.push(
        Card {
            label: "errors",
            value: dec_string(stats.errors as u128),
            accent: if stats.errors > 0 {
                paints.error
            } else {
                paints.muted
            },
        },
    );
    cards.push(
        Card {
            label: "hardlinks",
            value: dec_string(snapshot.hardlink_inodes as u128),
            accent: paints.mauve,
        },
    );
    cards
}

/// Position of the errors card among the metric cards.
pub const ERRORS_CARD: usize = 2;

/// The errors card's rectangle, for hit-testing; absent in the table-only view.
pub fn errors_card(cards: &[Area], zen: bool) -> (r: Option<(u16, u16, u16, u16)>)
    requires
        cards@.len() == 4,
    ensures
        r == (if zen {
            None
        } else {
            Some(
                (
                    cards@[ERRORS_CARD as int].x,
                    cards@[ERRORS_CARD as int].y,
                    cards@[ERRORS_CARD as int].width,
                    cards@[ERRORS_CARD as int].height,
                ),
            )
        }),
{
    if zen {
        return None;
    }
    let c = cards[ERRORS_CARD];
    Some((c.x, c.y, c.width, c.height))
}

/// The footer's first line.
pub const KEY_HINTS: &'static str =
    " ↑↓/jk move · ⏎/l/→ open · ⌫/h/← up · g/G ends · d/a/n/m/c/e sort · p apparent · Space mark · u unmark · v review · D delete · ? help · q quit";

/// Notes with a separator between each two.
pub open spec fn separated(notes: Seq<(Seq<char>, Style)>) -> Seq<(Seq<char>, Style)>
    decreases notes.len(),
{
    if notes.len() <= 1 {
        notes
    } else {
        separated(notes.drop_last()).push((" · "@, theme::plain_style())).push(notes.last())
    }
}

/// The footer's notes: the transient message, the warning while totals are
/// provisional, and the hint while the view lags.
pub open spec fn footer_notes(
    flash: Option<Seq<char>>,
    provisional: bool,
    updating: bool,
    paints: Paints,
) -> Seq<(Seq<char>, Style)> {
    let a = match flash {
        Some(text) => seq![(" "@ + text, strong(tinted(paints.accent)))],
        None => seq![],
    };
    let b = if provisional {
        a.push(
            (
                "provisional totals (hardlinks) — corrected at scan end"@,
                slanted(tinted(paints.accent)),
            ),
        )
    } else {
        a
    };
    if updating {
        b.push(("updating…"@, faint(slanted(theme::plain_style()))))
    } else {
        b
    }
}

fn push_note(l: &mut Line, note: String, style: Style, Ghost(notes): Ghost<
    Seq<(Seq<char>, Style)>,
>)
    requires
        old(l)@ == separated(notes),
        notes.len() == 0 <==> old(l)@.len() == 0,
    ensures
        final(l)@ == separated(notes.push((note@, style))),
        final(l)@.len() > 0,
{
    let ghost more = notes.push((note@, style));
    assert(more.drop_last() =~= notes);
    if l.pieces.len() > 0 {
        l.add(copy_str(" · "), Style::plain());
    }
    l.add(note, style);
    assert(l@ =~= separated(more));
}

/// The footer's two lines.
pub fn footer_lines(snapshot: &ViewSnapshot, flash: Option<&str>, paints: &Paints) -> (lines: Vec<
    Line,
>)
    ensures
        shown(lines@) == seq![
            seq![(KEY_HINTS@, faint(theme::plain_style()))],
            separated(
                footer_notes(
                    match flash {
                        Some(text) => Some(text@),
                        None => None,
                    },
                    snapshot.hardlink_inodes > 0 && !snapshot.stats.root_complete,
                    snapshot.degraded && !snapshot.stats.root_complete,
                    *paints,
                ),
            ),
        ],
{
    let mut notes = Line::empty();
    let ghost mut list: Seq<(Seq<char>, Style)> = Seq::empty();
    assert(notes@ =~= separated(list));
    if let Some(text) = flash {
        let mut s = copy_str(" ");
        s.append(text);
        let style = bold(tint(paints.accent));
        push_note(&mut notes, s, style, Ghost(list));
        proof {
            list = list.push((s@, style));
        }
        assert(list =~= seq![(" "@ + text@, strong(tinted(paints.accent)))]);
    }
    if show_hardlink_note(snapshot) {
        let s = copy_str("provisional totals (hardlinks) — corrected at scan end");
        let style = italic(tint(paints.accent));
        push_note(&mut notes, s, style, Ghost(list));
        proof {
            list = list.push((s@, style));
        }
    }
    if show_updating_note(snapshot) {
        let s = copy_str("updating…");
        let style = dim(italic(Style::plain()));
        push_note(&mut notes, s, style, Ghost(list));
        proof {
            list = list.push((s@, style));
        }
    }
    let mut lines: Vec<Line> = Vec::new();
    push_line(&mut lines, Line::one(copy_str(KEY_HINTS), dim(Style::plain())));
    push_line(&mut lines, notes);
    assert(shown(lines@) =~= seq![
        seq![(KEY_HINTS@, faint(theme::plain_style()))],
        separated(list),
    ]);
    lines
}

/// The basket strip's text.
pub open spec fn basket_text(count: usize, disk: u64, ascii: bool) -> Seq<char> {
    " "@ + (if ascii {
        "[x]"@
    } else {
        "⌫"@
    }) + " basket: "@ + text::dec(count as nat) + (if count == 1 {
        " item, "@
    } else {
        " items, "@
    }) + size::human(disk) + " — v to review, D to delete"@
}

/// The basket strip: how much is marked; nothing without marks.
pub fn basket_line(marked: Option<(usize, u64)>, ascii: bool, paints: &Paints) -> (r: Option<Line>)
    ensures
        match marked {
            Some((count, disk)) => r matches Some(l) && l@ == seq![
                (basket_text(count, disk, ascii), tinted(paints.error)),
            ],
            None => r is None,
        },
{
    let (count, disk) = match marked {
        None => {
            return None;
        },
        Some(m) => m,
    };
    let mut s = copy_str(" ");
    s.append(
        if ascii {
            "[x]"
        } else {
            "⌫"
        },
    );
    s.append(" basket: ");
    push_dec(&mut s, count as u128);
    s.append(
        if count == 1 {
            " item, "
        } else {
            " items, "
        },
    );
    push_human(&mut s, disk);
    s.append(" — v to review, D to delete");
    Some(Line::one(s, tint(paints.error)))
}

/// A notification on the screen.
#[derive(Debug)]
pub struct PlacedToast {
    pub text: String,
    pub area: Area,
}

/// Whether notification `i` stands on its row: one below the other at the right
/// edge, with a space on either side of the message.
pub open spec fn is_placed(t: PlacedToast, message: Seq<char>, i: int, main: Area) -> bool {
    let width: int = if message.len() + 2 < main.width {
        (message.len() + 2) as int
    } else {
        main.width as int
    };
    &&& t.text@ == " "@ + message + " "@
    &&& t.area.x == main.x + main.width - width
    &&& t.area.y == main.y + i
    &&& t.area.width == width
    &&& t.area.height == 1
}

/// Places the notifications in the top right corner of the main part, as many as
/// have a row there.
pub fn place_toasts(messages: &[String], main: Area) -> (r: Vec<PlacedToast>)
    requires
        main.x + main.width <= u16::MAX,
        main.y + main.height <= u16::MAX,
        forall|i: int| 0 <= i < messages@.len() ==> (#[trigger] messages@[i])@.len() + 2
            <= usize::MAX,
    ensures
        r@.len() == (if messages@.len() <= main.height {
            messages@.len()
        } else {
            main.height as nat
        }),
        forall|i: int|
            0 <= i < r@.len() ==> is_placed(#[trigger] r@[i], messages@[i]@, i, main),
{
    let mut r: Vec<PlacedToast> = Vec::new();
    let mut i: usize = 0;
    while i < messages.len() && i < main.height as usize
        invariant
            i <= messages@.len(),
            i <= main.height,
            main.x + main.width <= u16::MAX,
            main.y + main.height <= u16::MAX,
            forall|k: int| 0 <= k < messages@.len() ==> (#[trigger] messages@[k])@.len() + 2
                <= usize::MAX,
            r@.len() == i,
            forall|k: int|
                0 <= k < i ==> is_placed(#[trigger] r@[k], messages@[k]@, k, main),
        decreases messages@.len() - i,
    {
        let mut text = copy_str(" ");
        text.append(messages[i].as_str());
        text.append(" ");
        proof {
            reveal_strlit(" ");
            assert(messages@[i as int]@.len() + 2 <= usize::MAX);
        }
        let n: usize = text.as_str().unicode_len();
        let width: u16 = if n < main.width as usize {
            n as u16
        } else {
            main.width
        };
        let area = Area {
            x: main.x + (main.width - width),
            y: main.y + i as u16,
            width,
            height: 1,
        };
        r.push(PlacedToast { text, area });
        i = i + 1;
    }
    r
}

/// Notifications never overlap and never leave the main part.
pub proof fn law_toasts_stay_apart(
    a: PlacedToast,
    b: PlacedToast,
    ma: Seq<char>,
    mb: Seq<char>,
    i: int,
    j: int,
    main: Area,
)
    requires
        0 <= i < j < main.height,
        is_placed(a, ma, i, main),
        is_placed(b, mb, j, main),
    ensures
        a.area.y + a.area.height <= b.area.y,
        main.x <= a.area.x,
        a.area.x + a.area.width == main.x + main.width,
        a.area.y + a.area.height <= main.y + main.height,
{
}

/// A click on any component before the first descend jumps to the scan root, and
/// one on the viewed directory jumps nowhere.
pub proof fn law_crumbs_lead_to_ancestors(total: nat, stack: Seq<DirId>, i: int)
    requires
        0 <= i < total,
    ensures
        i + 1 == total ==> crumb_target(i, total, stack) is None,
        stack.len() > 0 && i + stack.len() < total && i + 1 < total ==> crumb_target(
            i,
            total,
            stack,
        ) == Some(stack[0]),
        crumb_target(i, total, stack) matches Some(dir) ==> stack.contains(dir),
{
}

/// The header tells the path, and says that the scan is done exactly once it is.
pub proof fn law_header_tells_path_and_state(
    path: Seq<char>,
    complete: bool,
    spinner: char,
    ascii: bool,
    paints: Paints,
)
    ensures
        ({
            let line = header_said(path, complete, spinner, ascii, paints);
            &&& line[3].0 == path
            &&& complete ==> line.last().0 == "done"@
            &&& !complete ==> line.last().0.len() > 0 && line.last().0[0] == spinner
                && text::ends_with(line.last().0, " scanning"@)
        }),
{
    text::lemma_ends(seq![spinner], " scanning"@);
}

/// The columns of the path's components are those where the header draws them: what
/// stands in front of the path is as wide as their offset.
pub proof fn law_crumbs_lie_under_the_path(
    path: Seq<char>,
    complete: bool,
    spinner: char,
    ascii: bool,
    paints: Paints,
    x: u16,
)
    ensures
        ({
            let line = header_said(path, complete, spinner, ascii, paints);
            &&& path_column(x, ascii) == x + line[0].0.len() + line[1].0.len() + line[2].0.len()
            &&& signature_columns(ascii) == line[1].0.len()
        }),
{
    reveal_strlit(" ");
    reveal_strlit("  ");
    reveal_strlit("camembert");
    reveal_strlit("▞ camembert");
}

/// Every component has the columns of its own characters.
pub proof fn law_crumbs_have_their_own_columns(
    path: Seq<char>,
    stack: Seq<DirId>,
    x: u16,
    ascii: bool,
    crumbs: Seq<(u16, u16, Option<DirId>)>,
    segments: Seq<(usize, usize)>,
    i: int,
)
    requires
        are_crumbs(path, stack, x, ascii, crumbs),
        fmt::are_segments(path, false, segments),
        0 <= i < segments.len(),
    ensures
        crumbs.len() == segments.len(),
        crumbs[i].0 - path_column(x, ascii) == segments[i].0,
        crumbs[i].1 - path_column(x, ascii) == segments[i].1,
        i + 1 == segments.len() ==> crumbs[i].2 is None,
{
    let s = choose|s: Seq<(usize, usize)>|
        {
            &&& #[trigger] fmt::are_segments(path, false, s)
            &&& crumbs.len() == s.len()
            &&& forall|i: int|
                0 <= i < crumbs.len() ==> is_crumb(
                    #[trigger] crumbs[i],
                    s[i],
                    path_column(x, ascii),
                    crumb_target(i, s.len(), stack),
                )
        };
    fmt::law_segments_unique(path, false, s, segments);
    assert(is_crumb(
        crumbs[i],
        s[i],
        path_column(x, ascii),
        crumb_target(i, s.len(), stack),
    ));
}

/// As long as the path has a component for each, the ancestors lie under the last
/// components before the viewed directory, in order.
pub proof fn law_crumbs_count_from_the_end(total: nat, stack: Seq<DirId>, k: int)
    requires
        0 < k < stack.len() < total,
    ensures
        crumb_target(total - stack.len() + k - 1, total, stack) == Some(stack[k]),
{
}

/// Notes are told in order, with a separator between two.
pub proof fn law_notes_are_separated(notes: Seq<(Seq<char>, Style)>, i: int)
    requires
        0 <= i < notes.len(),
    ensures
        separated(notes).len() == 2 * notes.len() - 1,
        separated(notes)[2 * i] == notes[i],
        i + 1 < notes.len() ==> separated(notes)[2 * i + 1].0 == " · "@,
    decreases notes.len(),
{
    if notes.len() > 1 {
        let rest = notes.drop_last();
        if i < rest.len() {
            law_notes_are_separated(rest, i);
            assert(rest[i] == notes[i]);
        } else {
            law_notes_are_separated(rest, 0);
        }
    }
}

/// The footer tells a message first, totals that hard links can still change, and
/// that rows are being updated: each exactly when it holds.
pub proof fn law_footer_tells_each_note(
    flash: Option<Seq<char>>,
    provisional: bool,
    updating: bool,
    paints: Paints,
)
    ensures
        ({
            let notes = footer_notes(flash, provisional, updating, paints);
            let said: int = if flash is Some {
                1
            } else {
                0
            };
            let held: int = if provisional {
                said + 1
            } else {
                said
            };
            &&& notes.len() == (if updating {
                held + 1
            } else {
                held
            })
            &&& flash matches Some(message) ==> text::ends_with(notes[0].0, message)
            &&& provisional ==> text::starts_with(notes[said].0, "provisional totals"@)
            &&& updating ==> notes.last().0 == "updating…"@
        }),
{
    match flash {
        Some(message) => {
            text::lemma_ends(" "@, message);
        },
        None => {},
    }
    reveal_strlit("provisional totals (hardlinks) — corrected at scan end");
    reveal_strlit("provisional totals");
    assert("provisional totals (hardlinks) — corrected at scan end"@.take(18)
        =~= "provisional totals"@);
}

/// The basket tells how many items are marked, one or several, and their size.
pub proof fn law_basket_tells_count_and_size(count: usize, disk: u64, ascii: bool)
    ensures
        ({
            let s = basket_text(count, disk, ascii);
            let items = text::dec(count as nat) + (if count == 1 {
                " item, "@
            } else {
                " items, "@
            });
            &&& text::occurs_in(s, items)
            &&& text::ends_with(s, size::human(disk) + " — v to review, D to delete"@)
        }),
{
    let l0 = " "@ + (if ascii {
        "[x]"@
    } else {
        "⌫"@
    }) + " basket: "@;
    let n = text::dec(count as nat);
    let word = if count == 1 {
        " item, "@
    } else {
        " items, "@
    };
    let l1 = l0 + n + word;
    text::lemma_side_by_side(l0, n, word);
    text::lemma_extend(l1, n + word, size::human(disk));
    text::lemma_extend(l1 + size::human(disk), n + word, " — v to review, D to delete"@);
    text::lemma_side_by_side(l1, size::human(disk), " — v to review, D to delete"@);
}

/// A notification shows its message, on the line of its place, at the right edge, as
/// wide as the message and its margins where there is room.
pub proof fn law_toasts_show_their_message(t: PlacedToast, message: Seq<char>, i: int, main: Area)
    requires
        is_placed(t, message, i, main),
    ensures
        text::occurs_in(t.text@, message),
        t.area.y - main.y == i,
        t.area.x + t.area.width == main.x + main.width,
        message.len() + 2 <= main.width ==> t.area.width == t.text@.len(),
{
    reveal_strlit(" ");
    text::lemma_occurs(" "@, message, " "@);
}

} // verus!
