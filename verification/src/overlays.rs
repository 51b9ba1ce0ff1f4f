//! The rows of the flat list and of the breakdown by pattern, and the dialogs of
//! the palette and of the freeable panel.

use crate::config;
use crate::flatview::{BreakdownRow, FlatRow, FlatSummary};
use crate::fmt;
use crate::fmt::abbreviate_path;
use crate::freeable_panel;
use crate::freeable_panel::{
    format_holder, group_by_ancestor, Coverage, DeletedEntry, FreeableGroup, Holder,
};
use crate::layout;
use crate::layout::{centered, Area};
use crate::lines::{bold, dim, faint, push_line, shown, strong, tint, tinted, Line, Paints};
use crate::modals;
use crate::modals::{fit_height, review_width, Dialog, Said};
use crate::palette;
use crate::palette::{PaletteCommand, PaletteState, PaletteView};
use crate::session;
use crate::session::ranked_commands;
use crate::size;
use crate::size::human_string;
use crate::table_view;
use crate::table_view::percent_text;
use crate::text;
use crate::text::{copy_str, dec_string, lossy, pad_left, pad_right, push_dec, string_of, sub_chars};
use crate::theme;
use crate::theme::Style;
use vstd::prelude::*;
use vstd::string::*;

verus! {

/// What a file of the flat list is called: by its path, abbreviated to `room`
/// characters, once that is known, and by its name before. A file with more than
/// one link has a badge.
pub open spec fn flat_label(row: FlatRow, room: nat) -> Seq<char> {
    (match row.path {
        Some(p) => fmt::abbreviated(text::lossy_text(p@), room, false),
        None => row.name@,
    }) + (if row.hardlink {
        " ⛓"@
    } else {
        ""@
    })
}

/// The cells of a row of the flat list: size and file.
pub fn flat_cells(row: &FlatRow, room: usize) -> (cells: Vec<String>)
    ensures
        text::texts(cells@) == seq![
            text::padded_left(size::human(row.disk), 9),
            flat_label(*row, room as nat),
        ],
{
    let mut label = match &row.path {
        Some(p) => abbreviate_path(lossy(p.as_slice()).as_str(), room),
        None => copy_str(row.name.as_str()),
    };
    label.append(
        if row.hardlink {
            " ⛓"
        } else {
            ""
        },
    );
    let cells = vec![pad_left(human_string(row.disk).as_str(), 9), label];
    assert(text::texts(cells@) =~= seq![
        text::padded_left(size::human(row.disk), 9),
        flat_label(*row, room as nat),
    ]);
    cells
}

/// What the flat list is headed with: how many files it stops at, if it does, and
/// whether the scan still changes it.
pub open spec fn flat_heading(count: nat, truncated: bool, provisional: bool) -> Seq<char> {
    "file"@ + (if truncated {
        " (top "@ + text::dec(count) + " of more eligible files shown)"@
    } else {
        ""@
    }) + (if provisional {
        " · provisional"@
    } else {
        ""@
    })
}

/// The titles of the flat list's columns.
pub fn flat_titles(summary: &FlatSummary) -> (titles: Vec<String>)
    ensures
        text::texts(titles@) == seq![
            "real"@,
            flat_heading(summary.top_files@.len(), summary.truncated, summary.provisional),
        ],
{
    let mut s = copy_str("file");
    if summary.truncated {
        s.append(" (top ");
        push_dec(&mut s, summary.top_files.len() as u128);
        s.append(" of more eligible files shown)");
    } else {
        s.append("");
    }
    s.append(
        if summary.provisional {
            " · provisional"
        } else {
            ""
        },
    );
    let titles = vec![copy_str("real"), s];
    assert(s@ =~= flat_heading(
        summary.top_files@.len(),
        summary.truncated,
        summary.provisional,
    ));
    assert(text::texts(titles@) =~= seq![
        "real"@,
        flat_heading(summary.top_files@.len(), summary.truncated, summary.provisional),
    ]);
    titles
}

/// The cells of a row of the breakdown: size, share of the total, entries and
/// category.
pub fn breakdown_cells(row: &BreakdownRow, total_disk: u64) -> (cells: Vec<String>)
    ensures
        text::texts(cells@) == seq![
            text::padded_left(size::human(row.disk), 9),
            table_view::percent_cell(row.disk, total_disk),
            text::padded_left(text::dec(row.entries as nat), 8),
            row.label@,
        ],
{
    let cells = vec![
        pad_left(human_string(row.disk).as_str(), 9),
        percent_text(row.disk, total_disk),
        pad_left(dec_string(row.entries as u128).as_str(), 8),
        copy_str(row.label.as_str()),
    ];
    assert(text::texts(cells@) =~= seq![
        text::padded_left(size::human(row.disk), 9),
        table_view::percent_cell(row.disk, total_disk),
        text::padded_left(text::dec(row.entries as nat), 8),
        row.label@,
    ]);
    cells
}

/// The titles of the breakdown's columns.
pub fn breakdown_titles(provisional: bool) -> (titles: Vec<String>)
    ensures
        text::texts(titles@) == seq![
            "real"@,
            "%"@,
            "items"@,
            if provisional {
                "category · provisional"@
            } else {
                "category"@
            },
        ],
{
    let last = if provisional {
        copy_str("category · provisional")
    } else {
        copy_str("category")
    };
    let titles = vec![copy_str("real"), copy_str("%"), copy_str("items"), last];
    assert(text::texts(titles@) =~= seq![
        "real"@,
        "%"@,
        "items"@,
        if provisional {
            "category · provisional"@
        } else {
            "category"@
        },
    ]);
    titles
}

/// The style of what is picked out: the plain one with its colors swapped.
pub open spec fn picked_style() -> Style {
    Style { reversed: true, ..theme::plain_style() }
}

fn picked() -> (s: Style)
    ensures
        s == picked_style(),
{
    let mut s = Style::plain();
    s.reversed = true;
    s
}

/// The palette's input line: the character at the cursor is picked out, at the
/// end of the text a space.
pub open spec fn input_said(p: PaletteView) -> Said {
    let at = p.cursor as int;
    if at < p.buffer.len() {
        seq![
            (p.buffer.take(at), theme::plain_style()),
            (seq![p.buffer[at]], picked_style()),
            (p.buffer.skip(at + 1), theme::plain_style()),
        ]
    } else {
        seq![(p.buffer, theme::plain_style()), (" "@, picked_style())]
    }
}

fn input_line(p: &PaletteState) -> (l: Line)
    requires
        p@.wf(),
    ensures
        l@ == input_said(p@),
{
    let n: usize = p.buffer.len();
    let at: usize = p.cursor;
    let chars = p.buffer.as_slice();
    let mut l = Line::empty();
    if at < n {
        let before = sub_chars(chars, 0, at);
        let here = sub_chars(chars, at, at + 1);
        let after = sub_chars(chars, at + 1, n);
        assert(before@ =~= p@.buffer.take(at as int));
        assert(here@ =~= seq![p@.buffer[at as int]]);
        assert(after@ =~= p@.buffer.skip(at + 1));
        l.add(string_of(before.as_slice()), Style::plain());
        l.add(string_of(here.as_slice()), picked());
        l.add(string_of(after.as_slice()), Style::plain());
    } else {
        l.add(string_of(chars), Style::plain());
        l.add(copy_str(" "), picked());
    }
    assert(l@ =~= input_said(p@));
    l
}

/// A command of the palette's list: its label and the keys that do the same.
pub open spec fn command_said(row: palette::CommandRow, selected: bool) -> Said {
    seq![
        (
            "  "@ + text::padded_right(row.label, 40) + " "@ + row.hint,
            if selected {
                picked_style()
            } else {
                theme::plain_style()
            },
        ),
    ]
}

/// The palette's lines: the input, and in command mode the matching commands in
/// order, the selected one picked out.
pub open spec fn palette_said(
    p: PaletteView,
    table: Seq<palette::CommandRow>,
    order: Seq<usize>,
) -> Seq<Said> {
    seq![input_said(p)] + Seq::new(
        order.len(),
        |i: int| command_said(table[order[i] as int], i == p.list_selected),
    )
}

/// The palette's lines over the commands that match.
pub fn palette_lines(p: &PaletteState, commands: &[PaletteCommand], order: &[usize]) -> (lines: Vec<
    Line,
>)
    requires
        p@.wf(),
        forall|i: int| 0 <= i < order@.len() ==> #[trigger] order@[i] < commands@.len(),
    ensures
        shown(lines@) == palette_said(p@, palette::rows_of(commands@), order@),
{
    let mut lines: Vec<Line> = Vec::new();
    push_line(&mut lines, input_line(p));
    let ghost top = shown(lines@);
    let ghost table = palette::rows_of(commands@);
    let ghost all = Seq::new(
        order@.len(),
        |i: int| command_said(table[order@[i] as int], i == p@.list_selected),
    );
    let mut i: usize = 0;
    assert(top =~= seq![input_said(p@)]);
    assert(shown(lines@) =~= top + all.take(0));
    while i < order.len()
        invariant
            i <= order@.len(),
            table == palette::rows_of(commands@),
            forall|k: int| 0 <= k < order@.len() ==> #[trigger] order@[k] < commands@.len(),
            all == Seq::new(
                order@.len(),
                |i: int| command_said(table[order@[i] as int], i == p@.list_selected),
            ),
            shown(lines@) == top + all.take(i as int),
        decreases order@.len() - i,
    {
        let command = &commands[order[i]];
        let mut s = copy_str("  ");
        s.append(pad_right(command.label, 40).as_str());
        s.append(" ");
        s.append(command.hint);
        let style = if i == p.list_selected {
            picked()
        } else {
            Style::plain()
        };
        assert(table[order@[i as int] as int] == command.row());
        push_line(&mut lines, Line::one(s, style));
        i = i + 1;
        assert(shown(lines@) =~= top + all.take(i as int));
    }
    assert(all.take(i as int) =~= all);
    lines
}

/// A saved query of the palette's list: its label and the query.
pub open spec fn query_said(row: (Seq<char>, Seq<char>), selected: bool) -> Said {
    seq![
        (
            "  "@ + text::padded_right(row.0, 24) + " "@ + row.1,
            if selected {
                picked_style()
            } else {
                theme::plain_style()
            },
        ),
    ]
}

/// The palette's lines over the saved queries, the selected one picked out.
pub open spec fn saved_said(p: PaletteView, saved: Seq<(Seq<char>, Seq<char>)>) -> Seq<Said> {
    seq![input_said(p)] + Seq::new(
        saved.len(),
        |i: int| query_said(saved[i], i == p.list_selected),
    )
}

fn saved_lines(p: &PaletteState, saved: &[(String, String)]) -> (lines: Vec<Line>)
    requires
        p@.wf(),
    ensures
        shown(lines@) == saved_said(p@, config::pairs(saved@)),
{
    let mut lines: Vec<Line> = Vec::new();
    push_line(&mut lines, input_line(p));
    let ghost top = shown(lines@);
    let ghost all = Seq::new(
        saved@.len(),
        |i: int| query_said(config::pairs(saved@)[i], i == p@.list_selected),
    );
    let mut i: usize = 0;
    assert(top =~= seq![input_said(p@)]);
    assert(shown(lines@) =~= top + all.take(0));
    while i < saved.len()
        invariant
            i <= saved@.len(),
            all == Seq::new(
                saved@.len(),
                |i: int| query_said(config::pairs(saved@)[i], i == p@.list_selected),
            ),
            shown(lines@) == top + all.take(i as int),
        decreases saved@.len() - i,
    {
        let mut s = copy_str("  ");
        s.append(pad_right(saved[i].0.as_str(), 24).as_str());
        s.append(" ");
        s.append(saved[i].1.as_str());
        let style = if i == p.list_selected {
            picked()
        } else {
            Style::plain()
        };
        push_line(&mut lines, Line::one(s, style));
        i = i + 1;
        assert(shown(lines@) =~= top + all.take(i as int));
    }
    assert(all.take(i as int) =~= all);
    assert(shown(lines@) =~= saved_said(p@, config::pairs(saved@)));
    lines
}

/// Whether the saved queries show: the box is empty and no past query is in it.
pub open spec fn shows_queries(p: PaletteView) -> bool {
    p.buffer.len() == 0 && p.history_cursor is None
}

/// The palette: the commands that match in command mode, and the saved queries
/// while the box is empty.
pub fn palette_dialog(p: &PaletteState, saved: &[(String, String)], screen: Area) -> (d: Dialog)
    requires
        p@.wf(),
    ensures
        d.title@ == " filter or > command "@,
        session::in_command_mode(p@) ==> exists|order: Seq<usize>| #[trigger]
            palette::is_ranking(p@.buffer.skip(1), palette::command_table(), order) && shown(
                d.lines@,
            ) == palette_said(p@, palette::command_table(), order),
        shows_queries(p@) ==> shown(d.lines@) == saved_said(p@, config::pairs(saved@)),
        !session::in_command_mode(p@) && !shows_queries(p@) ==> shown(d.lines@) == seq![
            input_said(p@),
        ],
        d.area == layout::centered_in(
            screen,
            modals::review_columns(screen.width),
            modals::dialog_height(d.lines@.len(), screen.height),
        ),
{
    let lines = if p.buffer.len() > 0 && p.buffer[0] == '>' {
        let (order, commands) = ranked_commands(p);
        let lines = palette_lines(p, commands.as_slice(), order.as_slice());
        assert(palette::is_ranking(p@.buffer.skip(1), palette::command_table(), order@));
        lines
    } else if p.buffer.len() == 0 && p.history_cursor.is_none() {
        saved_lines(p, saved)
    } else {
        let none: Vec<PaletteCommand> = Vec::new();
        let order: Vec<usize> = Vec::new();
        let lines = palette_lines(p, none.as_slice(), order.as_slice());
        assert(shown(lines@) =~= seq![input_said(p@)]);
        lines
    };
    let width: u16 = review_width(screen.width);
    let height: u16 = fit_height(lines.len(), screen.height);
    Dialog { title: " filter or > command ", lines, area: centered(screen, width, height) }
}

/// The holders of a file, separated by commas.
pub open spec fn holders_text(holders: Seq<Holder>) -> Seq<char>
    decreases holders.len(),
{
    if holders.len() == 0 {
        Seq::empty()
    } else {
        let h = holders.last();
        let before = holders_text(holders.drop_last());
        (if holders.len() > 1 {
            before + ", "@
        } else {
            before
        }) + freeable_panel::holder_text(h.pid, freeable_panel::name_view(h.comm))
    }
}

fn holder_string(holders: &Vec<Holder>) -> (s: String)
    ensures
        s@ == holders_text(holders@),
{
    let mut s = String::new();
    let mut i: usize = 0;
    assert(holders@.take(0) =~= Seq::empty());
    assert(s@ =~= Seq::<char>::empty());
    while i < holders.len()
        invariant
            i <= holders@.len(),
            s@ == holders_text(holders@.take(i as int)),
        decreases holders@.len() - i,
    {
        proof {
            assert(holders@.take(i + 1).drop_last() =~= holders@.take(i as int));
            assert(holders@.take(i + 1).last() == holders@[i as int]);
        }
        if i > 0 {
            s.append(", ");
        }
        s.append(format_holder(holders[i].pid, &holders[i].comm).as_str());
        i = i + 1;
    }
    assert(holders@.take(i as int) =~= holders@);
    s
}

/// A deleted file that is held open: its size, its last known path and its
/// holders.
pub open spec fn entry_said(e: DeletedEntry) -> Said {
    seq![
        (
            text::padded_left(size::human(e.bytes), 9) + "  "@ + text::lossy_text(e.evidence@)
                + " · "@ + holders_text(e.holders@),
            theme::plain_style(),
        ),
    ]
}

/// The first `n` files of a group.
pub open spec fn entries_said(entries: Seq<DeletedEntry>, at: Seq<usize>, n: int) -> Seq<Said> {
    Seq::new(n as nat, |i: int| entry_said(entries[at[i] as int]))
}

/// A group: the directory that it is under, and its files.
pub open spec fn group_said(entries: Seq<DeletedEntry>, g: FreeableGroup, paints: Paints) -> Seq<
    Said,
> {
    seq![
        seq![
            (
                match g.ancestor {
                    Some(dir) => text::lossy_text(dir@),
                    None => "(outside the scan / unknown)"@,
                },
                strong(tinted(paints.info)),
            ),
        ],
    ] + entries_said(entries, g.entries@, g.entries@.len() as int)
}

/// Some groups, in order.
pub open spec fn groups_said(
    entries: Seq<DeletedEntry>,
    groups: Seq<FreeableGroup>,
    paints: Paints,
) -> Seq<Said>
    decreases groups.len(),
{
    if groups.len() == 0 {
        Seq::empty()
    } else {
        groups_said(entries, groups.drop_last(), paints) + group_said(
            entries,
            groups.last(),
            paints,
        )
    }
}

/// The freeable panel's lines: the groups, and how much of the process table was
/// read where that is not all of it. Without a sweep of the table there is no
/// figure.
pub open spec fn freeable_said(
    swept: Option<(Seq<DeletedEntry>, Seq<FreeableGroup>, Coverage)>,
    paints: Paints,
) -> Seq<Said> {
    let body: Seq<Said> = match swept {
        None => seq![seq![("no figure: the process table was not read"@, tinted(paints.accent))]],
        Some((entries, groups, coverage)) => {
            let listed = if entries.len() == 0 {
                seq![
                    seq![("no deleted file is held open"@, theme::plain_style())],
                ]
            } else {
                groups_said(entries, groups, paints)
            };
            if coverage.readable < coverage.seen {
                listed.push(
                    seq![
                        (
                            text::dec(coverage.readable as nat) + " of "@ + text::dec(
                                coverage.seen as nat,
                            ) + " processes readable — run as root for the full view"@,
                            tinted(paints.accent),
                        ),
                    ],
                )
            } else {
                listed
            }
        },
    };
    body.push(seq![]).push(seq![("f or Esc closes"@, faint(theme::plain_style()))])
}

fn push_entry(lines: &mut Vec<Line>, e: &DeletedEntry)
    ensures
        shown(final(lines)@) == shown(old(lines)@).push(entry_said(*e)),
{
    let mut s = pad_left(human_string(e.bytes).as_str(), 9);
    s.append("  ");
    s.append(lossy(e.evidence.as_slice()).as_str());
    s.append(" · ");
    s.append(holder_string(&e.holders).as_str());
    push_line(lines, Line::one(s, Style::plain()));
}

fn push_group(lines: &mut Vec<Line>, entries: &[DeletedEntry], g: &FreeableGroup, paints: &Paints)
    requires
        forall|i: int| 0 <= i < g.entries@.len() ==> #[trigger] g.entries@[i] < entries@.len(),
    ensures
        shown(final(lines)@) == shown(old(lines)@) + group_said(entries@, *g, *paints),
{
    let head = match &g.ancestor {
        Some(dir) => lossy(dir.as_slice()),
        None => copy_str("(outside the scan / unknown)"),
    };
    let ghost before = shown(lines@);
    push_line(lines, Line::one(head, bold(tint(paints.info))));
    let ghost top = shown(lines@);
    let mut i: usize = 0;
    assert(shown(lines@) =~= top + entries_said(entries@, g.entries@, 0));
    while i < g.entries.len()
        invariant
            i <= g.entries@.len(),
            forall|k: int| 0 <= k < g.entries@.len() ==> #[trigger] g.entries@[k] < entries@.len(),
            shown(lines@) == top + entries_said(entries@, g.entries@, i as int),
        decreases g.entries@.len() - i,
    {
        push_entry(lines, &entries[g.entries[i]]);
        i = i + 1;
        assert(shown(lines@) =~= top + entries_said(entries@, g.entries@, i as int));
    }
    assert(shown(lines@) =~= before + group_said(entries@, *g, *paints));
}

/// What a sweep of the process table found.
#[derive(Debug)]
pub struct Sweep {
    /// Deleted files that are held open, the largest first.
    pub entries: Vec<DeletedEntry>,
    pub groups: Vec<FreeableGroup>,
    pub coverage: Coverage,
}

/// A sweep as values.
pub open spec fn swept(s: Option<&Sweep>) -> Option<
    (Seq<DeletedEntry>, Seq<FreeableGroup>, Coverage),
> {
    match s {
        Some(s) => Some((s.entries@, s.groups@, s.coverage)),
        None => None,
    }
}

impl Sweep {
    /// Whether every group lists entries of the sweep.
    pub open spec fn wf(&self) -> bool {
        forall|g: int, i: int|
            0 <= g < self.groups@.len() && 0 <= i < self.groups@[g].entries@.len()
                ==> #[trigger] self.groups@[g].entries@[i] < self.entries@.len()
    }

    /// A sweep with its entries grouped under the deepest of some directories.
    pub fn of(entries: Vec<DeletedEntry>, ancestors: &[Vec<u8>], coverage: Coverage) -> (s: Sweep)
        ensures
            s.wf(),
            s.entries@ == entries@,
            s.coverage == coverage,
            freeable_panel::are_groups(entries@, ancestors@, entries@.len() as int, s.groups@),
    {
        let groups = group_by_ancestor(entries.as_slice(), ancestors);
        proof {
            assert forall|g: int, i: int|
                0 <= g < groups@.len() && 0 <= i < groups@[g].entries@.len() implies #[trigger]
                groups@[g].entries@[i] < entries@.len() by {
                assert(freeable_panel::is_group(
                    entries@,
                    ancestors@,
                    entries@.len() as int,
                    groups@[g],
                ));
            }
        }
        Sweep { entries, groups, coverage }
    }

    fn listed(&self, paints: &Paints) -> (lines: Vec<Line>)
        requires
            self.wf(),
        ensures
            shown(lines@) == (if self.entries@.len() == 0 {
                seq![
                    seq![("no deleted file is held open"@, theme::plain_style())],
                ]
            } else {
                groups_said(self.entries@, self.groups@, *paints)
            }),
    {
        let mut lines: Vec<Line> = Vec::new();
        assert(shown(lines@) =~= Seq::<Said>::empty());
        if self.entries.len() == 0 {
            push_line(
                &mut lines,
                Line::one(copy_str("no deleted file is held open"), Style::plain()),
            );
            assert(shown(lines@) =~= seq![
                seq![("no deleted file is held open"@, theme::plain_style())],
            ]);
            return lines;
        }
        let mut i: usize = 0;
        assert(self.groups@.take(0) =~= Seq::empty());
        while i < self.groups.len()
            invariant
                i <= self.groups@.len(),
                self.wf(),
                shown(lines@) == groups_said(self.entries@, self.groups@.take(i as int), *paints),
            decreases self.groups@.len() - i,
        {
            let g = &self.groups[i];
            proof {
                assert(self.groups@.take(i + 1).drop_last() =~= self.groups@.take(i as int));
                assert(self.groups@.take(i + 1).last() == *g);
                assert forall|k: int| 0 <= k < g.entries@.len() implies #[trigger] g.entries@[k]
                    < self.entries@.len() by {
                    assert(self.groups@[i as int].entries@[k] < self.entries@.len());
                }
            }
            push_group(&mut lines, self.entries.as_slice(), g, paints);
            i = i + 1;
        }
        assert(self.groups@.take(i as int) =~= self.groups@);
        lines
    }
}

/// The freeable panel's lines.
pub fn freeable_lines(sweep: Option<&Sweep>, paints: &Paints) -> (lines: Vec<Line>)
    requires
        sweep matches Some(s) ==> s.wf(),
    ensures
        shown(lines@) == freeable_said(swept(sweep), *paints),
{
    let mut lines: Vec<Line> = match sweep {
        None => {
            let mut v: Vec<Line> = Vec::new();
            push_line(
                &mut v,
                Line::one(
                    copy_str("no figure: the process table was not read"),
                    tint(paints.accent),
                ),
            );
            assert(shown(v@) =~= seq![
                seq![("no figure: the process table was not read"@, tinted(paints.accent))],
            ]);
            v
        },
        Some(s) => {
            let mut v = s.listed(paints);
            if s.coverage.is_partial() {
                let mut t = dec_string(s.coverage.readable as u128);
                t.append(" of ");
                push_dec(&mut t, s.coverage.seen as u128);
                t.append(" processes readable — run as root for the full view");
                push_line(&mut v, Line::one(t, tint(paints.accent)));
            }
            v
        },
    };
    push_line(&mut lines, Line::empty());
    push_line(&mut lines, Line::one(copy_str("f or Esc closes"), dim(Style::plain())));
    lines
}

/// The freeable panel.
pub fn freeable_dialog(sweep: Option<&Sweep>, screen: Area, paints: &Paints) -> (d: Dialog)
    requires
        sweep matches Some(s) ==> s.wf(),
    ensures
        d.title@ == " freeable files "@,
        shown(d.lines@) == freeable_said(swept(sweep), *paints),
        d.area == layout::centered_in(
            screen,
            modals::review_columns(screen.width),
            modals::dialog_height(d.lines@.len(), screen.height),
        ),
{
    let lines = freeable_lines(sweep, paints);
    let width: u16 = review_width(screen.width);
    let height: u16 = fit_height(lines.len(), screen.height);
    Dialog { title: " freeable files ", lines, area: centered(screen, width, height) }
}

/// A sweep that saw only part of the process table always says so, and a missing
/// one never shows a number in its place.
pub proof fn law_gaps_are_told(
    entries: Seq<DeletedEntry>,
    groups: Seq<FreeableGroup>,
    coverage: Coverage,
    paints: Paints,
)
    ensures
        ({
            let lines = freeable_said(Some((entries, groups, coverage)), paints);
            coverage.readable < coverage.seen ==> lines.len() >= 3 && lines[lines.len() - 3] == seq![
                (
                    text::dec(coverage.readable as nat) + " of "@ + text::dec(coverage.seen as nat)
                        + " processes readable — run as root for the full view"@,
                    tinted(paints.accent),
                ),
            ]
        }),
        freeable_said(None, paints)[0] == seq![
            ("no figure: the process table was not read"@, tinted(paints.accent)),
        ],
{
}

/// A file of the flat list is shown by its path where that is known, else by its name,
/// with the badge behind it exactly for a hard link.
pub proof fn law_flat_labels_name_the_file(row: FlatRow, room: nat)
    ensures
        row.path is None ==> text::starts_with(flat_label(row, room), row.name@),
        row.path matches Some(p) ==> text::starts_with(
            flat_label(row, room),
            fmt::abbreviated(text::lossy_text(p@), room, false),
        ),
        row.hardlink ==> text::ends_with(flat_label(row, room), " ⛓"@),
        !row.hardlink && row.path is None ==> flat_label(row, room) == row.name@,
{
    reveal_strlit("");
    let label = match row.path {
        Some(p) => fmt::abbreviated(text::lossy_text(p@), room, false),
        None => row.name@,
    };
    text::lemma_ends(label, " ⛓"@);
    text::lemma_ends(label, ""@);
    assert(label + ""@ =~= label);
}

/// The heading says that there are more files exactly if there are, with how many are
/// shown, and that the list can still change exactly while it can.
pub proof fn law_flat_heading_tells_the_cut(count: nat, truncated: bool, provisional: bool)
    ensures
        truncated ==> text::occurs_in(
            flat_heading(count, truncated, provisional),
            " (top "@ + text::dec(count) + " of more eligible files shown)"@,
        ),
        provisional ==> text::ends_with(
            flat_heading(count, truncated, provisional),
            " · provisional"@,
        ),
        flat_heading(count, false, false) == "file"@,
{
    reveal_strlit("");
    let cut = if truncated {
        " (top "@ + text::dec(count) + " of more eligible files shown)"@
    } else {
        ""@
    };
    let note = if provisional {
        " · provisional"@
    } else {
        ""@
    };
    text::lemma_occurs("file"@, cut, note);
    text::lemma_ends("file"@ + cut, note);
    assert("file"@ + ""@ + ""@ =~= "file"@);
}

/// The input line shows the whole text, with the character under the cursor picked out,
/// or a blank behind the text.
pub proof fn law_input_shows_the_text(p: PaletteView)
    requires
        p.wf(),
    ensures
        p.cursor < p.buffer.len() ==> input_said(p)[0].0 + input_said(p)[1].0 + input_said(p)[2].0
            == p.buffer && input_said(p)[1].0 == seq![p.buffer[p.cursor as int]]
            && input_said(p)[1].1.reversed && !input_said(p)[0].1.reversed
            && !input_said(p)[2].1.reversed,
        p.cursor == p.buffer.len() ==> input_said(p)[0].0 == p.buffer && input_said(p)[1].0 == " "@
            && input_said(p)[1].1.reversed,
{
    if p.cursor < p.buffer.len() {
        assert(input_said(p)[0].0 + input_said(p)[1].0 + input_said(p)[2].0 =~= p.buffer);
    }
}

/// The palette lists the ranked commands, each with its own label and keys, in the order
/// of the ranking; the selected one stands out, and no other does.
pub proof fn law_palette_lists_the_commands(
    p: PaletteView,
    table: Seq<palette::CommandRow>,
    order: Seq<usize>,
    i: int,
)
    requires
        0 <= i < order.len(),
        order[i] < table.len(),
    ensures
        palette_said(p, table, order).len() == order.len() + 1,
        text::starts_with(
            palette_said(p, table, order)[1 + i][0].0,
            "  "@ + table[order[i] as int].label,
        ),
        text::ends_with(
            palette_said(p, table, order)[1 + i][0].0,
            " "@ + table[order[i] as int].hint,
        ),
        palette_said(p, table, order)[1 + i][0].1.reversed <==> i == p.list_selected,
{
    let row = table[order[i] as int];
    lemma_listed(row.label, 40, row.hint);
    assert(palette_said(p, table, order)[1 + i] == command_said(row, i == p.list_selected));
}

/// The saved queries are listed in order, each by its own name and text; the selected one
/// stands out, and no other does.
pub proof fn law_palette_lists_the_queries(
    p: PaletteView,
    saved: Seq<(Seq<char>, Seq<char>)>,
    i: int,
)
    requires
        0 <= i < saved.len(),
    ensures
        saved_said(p, saved).len() == saved.len() + 1,
        text::starts_with(saved_said(p, saved)[1 + i][0].0, "  "@ + saved[i].0),
        text::ends_with(saved_said(p, saved)[1 + i][0].0, " "@ + saved[i].1),
        saved_said(p, saved)[1 + i][0].1.reversed <==> i == p.list_selected,
{
    lemma_listed(saved[i].0, 24, saved[i].1);
    assert(saved_said(p, saved)[1 + i] == query_said(saved[i], i == p.list_selected));
}

proof fn lemma_listed(name: Seq<char>, width: nat, note: Seq<char>)
    ensures
        text::starts_with(
            "  "@ + text::padded_right(name, width) + " "@ + note,
            "  "@ + name,
        ),
        text::ends_with("  "@ + text::padded_right(name, width) + " "@ + note, " "@ + note),
{
    let padded = text::padded_right(name, width);
    text::law_padding_keeps_the_text(name, width);
    let head = "  "@ + padded;
    assert(head.take(("  "@ + name).len() as int) =~= "  "@ + name) by {
        assert(padded.take(name.len() as int) == name);
        assert forall|i: int| 0 <= i < name.len() implies padded[i] == name[i] by {
            assert(padded.take(name.len() as int)[i] == name[i]);
        }
    }
    text::lemma_extend_by(head, "  "@ + name, " "@, note);
    text::lemma_side_by_side(head, " "@, note);
}

/// The saved queries show only while nothing was typed and no history entry is shown.
pub proof fn law_queries_show_on_an_empty_line(p: PaletteView)
    ensures
        shows_queries(p) ==> p.buffer.len() == 0,
        p.buffer.len() > 0 || p.history_cursor is Some ==> !shows_queries(p),
        p.buffer.len() == 0 && p.history_cursor is None ==> shows_queries(p),
{
}

/// Every holder of a deleted file is named.
pub proof fn law_every_holder_is_named(holders: Seq<Holder>, i: int)
    requires
        0 <= i < holders.len(),
    ensures
        text::occurs_in(
            holders_text(holders),
            freeable_panel::holder_text(
                holders[i].pid,
                freeable_panel::name_view(holders[i].comm),
            ),
        ),
    decreases holders.len(),
{
    let own = freeable_panel::holder_text(
        holders[i].pid,
        freeable_panel::name_view(holders[i].comm),
    );
    let rest = holders.drop_last();
    let before = holders_text(rest);
    if i < rest.len() {
        law_every_holder_is_named(rest, i);
        assert(rest[i] == holders[i]);
        let h = holders.last();
        text::lemma_extend_by(
            before,
            own,
            ", "@,
            freeable_panel::holder_text(h.pid, freeable_panel::name_view(h.comm)),
        );
    } else {
        let head = if holders.len() > 1 {
            before + ", "@
        } else {
            before
        };
        text::lemma_occurs(head, own, Seq::empty());
        assert(head + own + Seq::<char>::empty() =~= holders_text(holders));
    }
}

/// A deleted file is told with its own size, path and holders.
pub proof fn law_deleted_files_are_told(e: DeletedEntry)
    ensures
        text::starts_with(entry_said(e)[0].0, text::padded_left(size::human(e.bytes), 9)),
        text::occurs_in(entry_said(e)[0].0, "  "@ + text::lossy_text(e.evidence@)),
        text::ends_with(entry_said(e)[0].0, " · "@ + holders_text(e.holders@)),
{
    let size = text::padded_left(size::human(e.bytes), 9);
    let path = text::lossy_text(e.evidence@);
    let held = holders_text(e.holders@);
    text::lemma_itself(size);
    text::lemma_extend_by(size, size, "  "@, path);
    text::lemma_extend_by(size + "  "@ + path, size, " · "@, held);
    text::lemma_side_by_side(size, "  "@, path);
    text::lemma_extend_by(size + "  "@ + path, "  "@ + path, " · "@, held);
    text::lemma_side_by_side(size + "  "@ + path, " · "@, held);
}

/// A group is told under its directory, or as outside the scan, and lists its own files
/// in order.
pub proof fn law_groups_list_their_files(
    entries: Seq<DeletedEntry>,
    g: FreeableGroup,
    paints: Paints,
    i: int,
)
    requires
        0 <= i < g.entries@.len(),
    ensures
        group_said(entries, g, paints).len() == g.entries@.len() + 1,
        g.ancestor matches Some(dir) ==> group_said(entries, g, paints)[0][0].0 == text::lossy_text(
            dir@,
        ),
        g.ancestor is None ==> group_said(entries, g, paints)[0][0].0
            == "(outside the scan / unknown)"@,
        group_said(entries, g, paints)[1 + i] == entry_said(entries[g.entries@[i] as int]),
{
}

/// Every group is told, in order: what the groups say is what each of them says, one
/// after the other.
pub proof fn law_every_group_is_told(
    entries: Seq<DeletedEntry>,
    groups: Seq<FreeableGroup>,
    paints: Paints,
    k: int,
    i: int,
)
    requires
        0 <= k < groups.len(),
        0 <= i <= groups[k].entries@.len(),
    ensures
        groups_said(entries, groups, paints).len() >= groups.len(),
        groups_said(entries, groups, paints).contains(group_said(entries, groups[k], paints)[i]),
    decreases groups.len(),
{
    let rest = groups.drop_last();
    let before = groups_said(entries, rest, paints);
    let all = groups_said(entries, groups, paints);
    let line = group_said(entries, groups[k], paints)[i];
    if k < rest.len() {
        law_every_group_is_told(entries, rest, paints, k, i);
        assert(rest[k] == groups[k]);
        let j = choose|j: int| 0 <= j < before.len() && before[j] == line;
        assert(all[j] == line);
    } else {
        if rest.len() > 0 {
            law_every_group_is_told(entries, rest, paints, 0, 0);
        }
        assert(all[before.len() + i] == line);
    }
}

/// Without a deleted file that is held open the panel says so, and only then.
pub proof fn law_panel_says_when_nothing_is_held(
    entries: Seq<DeletedEntry>,
    groups: Seq<FreeableGroup>,
    coverage: Coverage,
    paints: Paints,
)
    ensures
        entries.len() == 0 ==> freeable_said(Some((entries, groups, coverage)), paints)[0][0].0
            == "no deleted file is held open"@,
        entries.len() > 0 && groups.len() > 0 ==> freeable_said(
            Some((entries, groups, coverage)),
            paints,
        )[0] == groups_said(entries, groups, paints)[0],
        freeable_said(None, paints)[0][0].0 == "no figure: the process table was not read"@,
{
    if groups.len() > 0 {
        law_every_group_is_told(entries, groups, paints, 0, 0);
    }
}

} // verus!
