//! The text reports of the command line: the scan summary, the comparison of two
//! dumps and the import, with their exit codes.

use crate::history;
use crate::history::trim_chars;
use crate::order;
use crate::order::{sort_positions, StrictOrder};
use crate::size;
use crate::size::{human_string, push_human};
use crate::text;
use crate::text::{chars_of, copy_str, dec_string, pad_left, pad_right, push_dec};
use vstd::prelude::*;
use vstd::string::*;

verus! {

fn push_text(lines: &mut Vec<String>, s: String)
    ensures
        text::texts(final(lines)@) == text::texts(old(lines)@).push(s@),
{
    let ghost before = text::texts(lines@);
    lines.push(s);
    assert(text::texts(lines@) =~= before.push(s@));
}

/// How a scan runs.
#[derive(Debug, Clone, Copy, PartialEq, Eq, Structural)]
pub enum ScanMode {
    Interactive,
    Summary,
    /// A dump and the interface cannot share standard output.
    Refused,
}

/// How a scan runs, with a standard output that is a terminal or not.
pub open spec fn mode_of(no_ui: bool, terminal: bool, dump_to_stdout: bool) -> ScanMode {
    if no_ui || !terminal {
        ScanMode::Summary
    } else if dump_to_stdout {
        ScanMode::Refused
    } else {
        ScanMode::Interactive
    }
}

/// Decides how a scan runs: interactively on a terminal, unless told otherwise.
pub fn scan_mode(no_ui: bool, terminal: bool, dump_to_stdout: bool) -> (m: ScanMode)
    ensures
        m == mode_of(no_ui, terminal, dump_to_stdout),
{
    if no_ui || !terminal {
        ScanMode::Summary
    } else if dump_to_stdout {
        ScanMode::Refused
    } else {
        ScanMode::Interactive
    }
}

/// The notification about patterns that were ignored; none without any.
pub fn startup_toasts(ignored: usize) -> (r: Vec<String>)
    ensures
        text::texts(r@) == (if ignored == 0 {
            seq![]
        } else if ignored == 1 {
            seq!["1"@ + " invalid pattern ignored — see log"@]
        } else {
            seq![text::dec(ignored as nat) + " invalid patterns ignored — see log"@]
        }),
{
    let mut r: Vec<String> = Vec::new();
    if ignored == 1 {
        let mut s = copy_str("1");
        s.append(" invalid pattern ignored — see log");
        push_text(&mut r, s);
    } else if ignored > 1 {
        let mut s = dec_string(ignored as u128);
        s.append(" invalid patterns ignored — see log");
        push_text(&mut r, s);
    }
    assert(text::texts(r@) =~= (if ignored == 0 {
        seq![]
    } else if ignored == 1 {
        seq!["1"@ + " invalid pattern ignored — see log"@]
    } else {
        seq![text::dec(ignored as nat) + " invalid patterns ignored — see log"@]
    }));
    r
}

/// Whether a filter was given that is more than white space.
pub fn filter_wanted(filter: Option<&str>) -> (r: bool)
    ensures
        r == (filter matches Some(f) && history::trimmed(f@).len() > 0),
{
    match filter {
        Some(f) => trim_chars(chars_of(f).as_slice()).len() > 0,
        None => false,
    }
}

/// What is said about a filter with errors.
pub open spec fn problems(errors: Seq<String>) -> Seq<Seq<char>> {
    seq![
        "camembert: --filter has "@ + text::dec(errors.len())
            + " problem(s) and will not run:"@,
    ] + Seq::new(errors.len(), |i: int| "  "@ + errors[i]@)
}

/// Reports the errors of a filter.
pub fn filter_problems(errors: &[String]) -> (lines: Vec<String>)
    ensures
        text::texts(lines@) == problems(errors@),
{
    let mut lines: Vec<String> = Vec::new();
    let mut head = copy_str("camembert: --filter has ");
    push_dec(&mut head, errors.len() as u128);
    head.append(" problem(s) and will not run:");
    push_text(&mut lines, head);
    let ghost all = problems(errors@);
    assert(text::texts(lines@) =~= all.take(1));
    let mut i: usize = 0;
    while i < errors.len()
        invariant
            i <= errors@.len(),
            all == problems(errors@),
            text::texts(lines@) == all.take(i + 1),
        decreases errors@.len() - i,
    {
        let mut s = copy_str("  ");
        s.append(errors[i].as_str());
        push_text(&mut lines, s);
        i = i + 1;
        assert(text::texts(lines@) =~= all.take(i + 1));
    }
    assert(all.take(i + 1) =~= all);
    lines
}

/// Decides whether a filter stops a summary before anything is scanned: one that
/// is more than white space must parse without an error. The result is what to
/// say and the exit code to end with.
pub fn filter_gate(filter: Option<&str>, errors: &[String]) -> (r: Option<(Vec<String>, u8)>)
    ensures
        r is Some <==> (filter matches Some(f) && history::trimmed(f@).len() > 0) && errors@.len()
            > 0,
        r matches Some((lines, code)) ==> text::texts(lines@) == problems(errors@) && code
            == ERROR_EXIT,
{
    if filter_wanted(filter) && errors.len() > 0 {
        Some((filter_problems(errors), ERROR_EXIT))
    } else {
        None
    }
}

/// A directory with its matched bytes.
#[derive(Debug, Clone, Copy, PartialEq, Eq, Structural)]
pub struct DirSize {
    pub index: u32,
    pub disk: u64,
}

/// Directories by size downwards, then by index.
pub struct DirOrder<'a> {
    pub dirs: &'a [DirSize],
}

impl<'a> StrictOrder for DirOrder<'a> {
    open spec fn has(&self, a: usize) -> bool {
        a < self.dirs@.len()
    }

    open spec fn before(&self, a: usize, b: usize) -> bool {
        let x = self.dirs@[a as int];
        let y = self.dirs@[b as int];
        ||| x.disk > y.disk
        ||| x.disk == y.disk && x.index < y.index
        ||| x.disk == y.disk && x.index == y.index && a < b
    }

    proof fn irreflexive(&self, a: usize) {
    }

    proof fn total(&self, a: usize, b: usize) {
    }

    proof fn transitive(&self, a: usize, b: usize, c: usize) {
    }

    fn precedes(&self, a: usize, b: usize) -> (r: bool) {
        let x = self.dirs[a];
        let y = self.dirs[b];
        x.disk > y.disk || (x.disk == y.disk && (x.index < y.index || (x.index == y.index && a
            < b)))
    }
}

/// The positions of the largest directories, largest first.
pub fn top_dirs(dirs: &[DirSize], top: usize) -> (r: Vec<usize>)
    ensures
        exists|all: Seq<usize>|
            {
                &&& #[trigger] order::is_sorted_order(all, dirs@.len(), (DirOrder { dirs }))
                &&& r@ == all.take(
                    if top < all.len() {
                        top as int
                    } else {
                        all.len() as int
                    },
                )
            },
{
    let by = DirOrder { dirs };
    let mut all = sort_positions(dirs.len(), &by);
    let ghost whole = all@;
    proof {
        order::lemma_sorted_order_range(whole, dirs@.len(), by);
    }
    if top < all.len() {
        all.truncate(top);
    }
    assert(all@ =~= whole.take(
        if top < whole.len() {
            top as int
        } else {
            whole.len() as int
        },
    ));
    all
}

/// What the count of hardlinked inodes means: without link counts only inodes
/// that were reached twice are known.
pub open spec fn qualifier_text(link_counts_known: bool) -> Seq<char> {
    if link_counts_known {
        "each counted once"@
    } else {
        "reached by more than one path in this scan; each counted once. Links outside it were not checked — `--links`"@
    }
}

/// The qualifier of the hardlink count.
pub fn hardlink_line_qualifier(link_counts_known: bool) -> (s: &'static str)
    ensures
        s@ == qualifier_text(link_counts_known),
{
    if link_counts_known {
        "each counted once"
    } else {
        "reached by more than one path in this scan; each counted once. Links outside it were not checked — `--links`"
    }
}

/// Whether the summary tells the hardlink count: a zero only where it was not
/// checked, which the qualifier then says.
pub fn show_hardlink_line(hardlink_inodes: u64, link_counts_known: bool) -> (r: bool)
    ensures
        r == (hardlink_inodes > 0 || !link_counts_known),
{
    hardlink_inodes > 0 || !link_counts_known
}

/// A sized line of a list: a path, and whether it is a hardlink.
#[derive(Debug)]
pub struct SizedPath {
    pub disk: u64,
    pub path: String,
    pub hardlink: bool,
}

/// One line of a list.
pub open spec fn sized_text(p: SizedPath) -> Seq<char> {
    "  "@ + text::padded_left(size::human(p.disk), 10) + "  "@ + p.path@ + (if p.hardlink {
        " ⛓"@
    } else {
        ""@
    })
}

/// The first `n` lines of a list.
pub open spec fn sized_lines(list: Seq<SizedPath>, n: int) -> Seq<Seq<char>> {
    Seq::new(n as nat, |i: int| sized_text(list[i]))
}

/// How many lines of a list are shown.
pub open spec fn shown_count(list: Seq<SizedPath>, top: usize) -> int {
    if list.len() <= top {
        list.len() as int
    } else {
        top as int
    }
}

fn push_sized(lines: &mut Vec<String>, list: &Vec<SizedPath>, top: usize)
    ensures
        text::texts(final(lines)@) == text::texts(old(lines)@) + sized_lines(list@, shown_count(list@, top)),
{
    let n: usize = if list.len() <= top {
        list.len()
    } else {
        top
    };
    let ghost before = text::texts(lines@);
    let mut i: usize = 0;
    assert(text::texts(lines@) =~= before + sized_lines(list@, 0));
    while i < n
        invariant
            i <= n,
            n <= list@.len(),
            text::texts(lines@) == before + sized_lines(list@, i as int),
        decreases n - i,
    {
        let mut s = copy_str("  ");
        s.append(pad_left(human_string(list[i].disk).as_str(), 10).as_str());
        s.append("  ");
        s.append(list[i].path.as_str());
        s.append(
            if list[i].hardlink {
                " ⛓"
            } else {
                ""
            },
        );
        push_text(lines, s);
        i = i + 1;
        assert(text::texts(lines@) =~= before + sized_lines(list@, i as int));
    }
}

/// What a filter matched.
#[derive(Debug)]
pub struct Matched {
    /// The filter, quoted.
    pub filter: String,
    pub disk: u64,
    pub apparent: u64,
    pub entries: u64,
    /// Disk bytes and number of the directory inodes, which no filter matches.
    pub residual_disk: u64,
    pub residual_dirs: u64,
}

/// A text in quotes, with escapes for what does not print.
pub uninterp spec fn quoted(text: Seq<char>) -> Seq<char>;

/// The debug formatting of `str` puts a text in double quotes and escapes it.
/// The contract names the result.
#[verifier::external_body]
fn quote(text: &str) -> (r: String)
    ensures
        r@ == quoted(text@),
{
    format!("{text:?}")
}

/// Tells what a filter matched, the filter in quotes.
pub fn matched_by(
    filter: &str,
    disk: u64,
    apparent: u64,
    entries: u64,
    residual_disk: u64,
    residual_dirs: u64,
) -> (m: Matched)
    ensures
        m.filter@ == quoted(filter@),
        m.disk == disk,
        m.apparent == apparent,
        m.entries == entries,
        m.residual_disk == residual_disk,
        m.residual_dirs == residual_dirs,
{
    Matched { filter: quote(filter), disk, apparent, entries, residual_disk, residual_dirs }
}

/// What the summary of a scan tells.
#[derive(Debug)]
pub struct Summary {
    pub path: String,
    /// Elapsed seconds, with two decimals.
    pub seconds: String,
    pub matched: Option<Matched>,
    pub real: u64,
    pub apparent: u64,
    pub entries: u64,
    pub dirs: u64,
    pub errors: u64,
    pub excluded_dirs: u64,
    pub excluded_kernfs: u64,
    pub hardlink_inodes: u64,
    pub link_counts_known: bool,
    /// Entries of each list.
    pub top: usize,
    /// The largest directories, largest first.
    pub top_dirs: Vec<SizedPath>,
    /// The largest files, largest first.
    pub top_files: Vec<SizedPath>,
    /// Whether there are more files than the cap.
    pub truncated: bool,
    pub flat_cap: usize,
    /// The directories with the most unreadable entries.
    pub error_dirs: Vec<(u64, String)>,
}

/// The line of totals.
pub open spec fn totals_text(s: Summary) -> Seq<char> {
    match s.matched {
        Some(m) => "  matched (--filter "@ + m.filter@ + "): "@ + size::human(m.disk)
            + " real, "@ + size::human(m.apparent) + " apparent, "@ + text::dec(m.entries as nat)
            + " entries — of "@ + size::human(s.real) + " real scanned"@,
        None => "  total: "@ + size::human(s.real) + " real, "@ + size::human(s.apparent)
            + " apparent"@,
    }
}

/// The line of counts.
pub open spec fn counts_text(s: Summary) -> Seq<char> {
    let line = "  entries: "@ + text::dec(s.entries as nat) + " ("@ + text::dec(s.dirs as nat)
        + " dirs)  errors: "@ + text::dec(s.errors as nat) + "  excluded mounts: "@ + text::dec(
        s.excluded_dirs as nat,
    ) + " ("@ + text::dec(s.excluded_kernfs as nat) + " kernfs)"@;
    if s.hardlink_inodes > 0 || !s.link_counts_known {
        line + "  hardlinked inodes: "@ + text::dec(s.hardlink_inodes as nat) + " ("@
            + qualifier_text(s.link_counts_known) + ")"@
    } else {
        line
    }
}

/// The summary's head: where and how long, the totals, the counts.
pub open spec fn head_lines(s: Summary) -> Seq<Seq<char>> {
    seq![
        "Scanned "@ + s.path@ + " in "@ + s.seconds@ + "s"@,
        totals_text(s),
        counts_text(s),
        ""@,
    ]
}

/// The note on files beyond the cap.
pub open spec fn cap_text(cap: usize) -> Seq<char> {
    "  (top "@ + text::dec(cap as nat)
        + " of more eligible files shown; flat_cap in camembert.toml)"@
}

/// The note on directory inodes.
pub open spec fn residual_text(disk: u64, dirs: u64) -> Seq<char> {
    "  (+"@ + size::human(disk) + " in "@ + text::dec(dirs as nat)
        + " directory inode(s), never matched by any query)"@
}

/// The summary's two lists, over the matches where there is a filter.
pub open spec fn list_lines(s: Summary) -> Seq<Seq<char>> {
    let filtered = s.matched is Some;
    let dirs = seq![
        "Top "@ + text::dec(s.top as nat) + (if filtered {
            " directories by matched real size:"@
        } else {
            " directories by real size:"@
        }),
    ] + sized_lines(s.top_dirs@, shown_count(s.top_dirs@, s.top));
    let files = dirs.push(""@).push(
        "Top "@ + text::dec(s.top as nat) + (if filtered {
            " matched files by real size:"@
        } else {
            " files by real size:"@
        }),
    ) + sized_lines(s.top_files@, shown_count(s.top_files@, s.top));
    let noted = if s.truncated {
        files.push(cap_text(s.flat_cap))
    } else {
        files
    };
    match s.matched {
        Some(m) if m.residual_disk > 0 => noted.push(
            residual_text(m.residual_disk, m.residual_dirs),
        ),
        _ => noted,
    }
}

/// One line of the error section.
pub open spec fn error_text(e: (u64, String)) -> Seq<char> {
    "  "@ + text::padded_left(text::dec(e.0 as nat), 6) + " errors  "@ + e.1@
}

/// The error section: where entries could not be read; none without errors.
pub open spec fn error_lines(s: Summary) -> Seq<Seq<char>> {
    if s.errors == 0 {
        seq![]
    } else {
        seq![
            ""@,
            text::dec(s.errors as nat)
                + " entries could not be read; most affected directories:"@,
        ] + Seq::new(s.error_dirs@.len(), |i: int| error_text(s.error_dirs@[i]))
    }
}

fn totals_line(s: &Summary) -> (r: String)
    ensures
        r@ == totals_text(*s),
{
    match &s.matched {
        Some(m) => {
            let mut r = copy_str("  matched (--filter ");
            r.append(m.filter.as_str());
            r.append("): ");
            push_human(&mut r, m.disk);
            r.append(" real, ");
            push_human(&mut r, m.apparent);
            r.append(" apparent, ");
            push_dec(&mut r, m.entries as u128);
            r.append(" entries — of ");
            push_human(&mut r, s.real);
            r.append(" real scanned");
            r
        },
        None => {
            let mut r = copy_str("  total: ");
            push_human(&mut r, s.real);
            r.append(" real, ");
            push_human(&mut r, s.apparent);
            r.append(" apparent");
            r
        },
    }
}

fn counts_line(s: &Summary) -> (r: String)
    ensures
        r@ == counts_text(*s),
{
    let mut r = copy_str("  entries: ");
    push_dec(&mut r, s.entries as u128);
    r.append(" (");
    push_dec(&mut r, s.dirs as u128);
    r.append(" dirs)  errors: ");
    push_dec(&mut r, s.errors as u128);
    r.append("  excluded mounts: ");
    push_dec(&mut r, s.excluded_dirs as u128);
    r.append(" (");
    push_dec(&mut r, s.excluded_kernfs as u128);
    r.append(" kernfs)");
    if show_hardlink_line(s.hardlink_inodes, s.link_counts_known) {
        r.append("  hardlinked inodes: ");
        push_dec(&mut r, s.hardlink_inodes as u128);
        r.append(" (");
        r.append(hardlink_line_qualifier(s.link_counts_known));
        r.append(")");
    }
    r
}

fn push_head(lines: &mut Vec<String>, s: &Summary)
    ensures
        text::texts(final(lines)@) == text::texts(old(lines)@) + head_lines(*s),
{
    let ghost before = text::texts(lines@);
    let mut first = copy_str("Scanned ");
    first.append(s.path.as_str());
    first.append(" in ");
    first.append(s.seconds.as_str());
    first.append("s");
    push_text(lines, first);
    push_text(lines, totals_line(s));
    push_text(lines, counts_line(s));
    push_text(lines, copy_str(""));
    assert(text::texts(lines@) =~= before + head_lines(*s));
}

fn list_title(top: usize, rest: &str) -> (r: String)
    ensures
        r@ == "Top "@ + text::dec(top as nat) + rest@,
{
    let mut r = copy_str("Top ");
    push_dec(&mut r, top as u128);
    r.append(rest);
    r
}

fn push_notes(lines: &mut Vec<String>, s: &Summary)
    ensures
        text::texts(final(lines)@) == ({
            let noted = if s.truncated {
                text::texts(old(lines)@).push(cap_text(s.flat_cap))
            } else {
                text::texts(old(lines)@)
            };
            match s.matched {
                Some(m) if m.residual_disk > 0 => noted.push(
                    residual_text(m.residual_disk, m.residual_dirs),
                ),
                _ => noted,
            }
        }),
{
    if s.truncated {
        let mut r = copy_str("  (top ");
        push_dec(&mut r, s.flat_cap as u128);
        r.append(" of more eligible files shown; flat_cap in camembert.toml)");
        push_text(lines, r);
    }
    if let Some(m) = &s.matched {
        if m.residual_disk > 0 {
            let mut r = copy_str("  (+");
            push_human(&mut r, m.residual_disk);
            r.append(" in ");
            push_dec(&mut r, m.residual_dirs as u128);
            r.append(" directory inode(s), never matched by any query)");
            push_text(lines, r);
        }
    }
}

fn push_lists(lines: &mut Vec<String>, s: &Summary)
    ensures
        text::texts(final(lines)@) == text::texts(old(lines)@) + list_lines(*s),
{
    let ghost before = text::texts(lines@);
    let filtered: bool = s.matched.is_some();
    let mut out: Vec<String> = Vec::new();
    push_text(
        &mut out,
        list_title(
            s.top,
            if filtered {
                " directories by matched real size:"
            } else {
                " directories by real size:"
            },
        ),
    );
    assert(text::texts(out@) =~= seq![text::texts(out@)[0]]);
    push_sized(&mut out, &s.top_dirs, s.top);
    push_text(&mut out, copy_str(""));
    push_text(
        &mut out,
        list_title(
            s.top,
            if filtered {
                " matched files by real size:"
            } else {
                " files by real size:"
            },
        ),
    );
    push_sized(&mut out, &s.top_files, s.top);
    push_notes(&mut out, s);
    assert(text::texts(out@) == list_lines(*s));
    append_texts(lines, out);
}

fn append_texts(lines: &mut Vec<String>, more: Vec<String>)
    ensures
        text::texts(final(lines)@) == text::texts(old(lines)@) + text::texts(more@),
{
    let ghost before = lines@;
    let mut more = more;
    let ghost all = more@;
    lines.append(&mut more);
    assert(lines@ =~= before + all);
    assert(text::texts(lines@) =~= text::texts(before) + text::texts(all));
}

fn push_errors(lines: &mut Vec<String>, s: &Summary)
    ensures
        text::texts(final(lines)@) == text::texts(old(lines)@) + error_lines(*s),
{
    let ghost before = text::texts(lines@);
    if s.errors == 0 {
        assert(before + error_lines(*s) =~= before);
        return;
    }
    push_text(lines, copy_str(""));
    let mut head = dec_string(s.errors as u128);
    head.append(" entries could not be read; most affected directories:");
    push_text(lines, head);
    let ghost all = error_lines(*s);
    let mut i: usize = 0;
    assert(text::texts(lines@) =~= before + all.take(2));
    while i < s.error_dirs.len()
        invariant
            i <= s.error_dirs@.len(),
            s.errors > 0,
            all == error_lines(*s),
            text::texts(lines@) == before + all.take(i + 2),
        decreases s.error_dirs@.len() - i,
    {
        let mut r = copy_str("  ");
        r.append(pad_left(dec_string(s.error_dirs[i].0 as u128).as_str(), 6).as_str());
        r.append(" errors  ");
        r.append(s.error_dirs[i].1.as_str());
        push_text(lines, r);
        i = i + 1;
        assert(text::texts(lines@) =~= before + all.take(i + 2));
    }
    assert(all.take(i + 2) =~= all);
}

/// The summary of a scan; nothing where the dump goes to standard output.
pub open spec fn summary_lines(s: Summary, dump_to_stdout: bool) -> Seq<Seq<char>> {
    if dump_to_stdout {
        seq![]
    } else {
        head_lines(s) + list_lines(s) + error_lines(s)
    }
}

/// The summary of a scan. Nothing is printed where the dump goes to standard
/// output.
pub fn summary(s: &Summary, dump_to_stdout: bool) -> (lines: Vec<String>)
    ensures
        text::texts(lines@) == summary_lines(*s, dump_to_stdout),
{
    let mut lines: Vec<String> = Vec::new();
    if dump_to_stdout {
        assert(text::texts(lines@) =~= seq![]);
        return lines;
    }
    push_head(&mut lines, s);
    assert(text::texts(lines@) =~= head_lines(*s));
    push_lists(&mut lines, s);
    push_errors(&mut lines, s);
    lines
}

/// A signed number with its sign always shown.
pub open spec fn signed_text(n: i64) -> Seq<char> {
    if n < 0 {
        "-"@ + text::dec((-n) as nat)
    } else {
        "+"@ + text::dec(n as nat)
    }
}

fn signed_string(n: i64) -> (s: String)
    ensures
        s@ == signed_text(n),
{
    if n < 0 {
        let mut s = copy_str("-");
        push_dec(&mut s, (-(n as i128)) as u128);
        s
    } else {
        let mut s = copy_str("+");
        push_dec(&mut s, n as u128);
        s
    }
}

/// How many entries changed in which way.
#[derive(Debug, Clone, Copy, PartialEq, Eq, Structural)]
pub struct ChangeCounts {
    pub added: u64,
    pub removed: u64,
    pub grown: u64,
    pub shrunk: u64,
    pub touched: u64,
    pub type_changed: u64,
    pub dirs_added: u64,
    pub dirs_removed: u64,
}

/// A changed directory or entry; sizes and paths are already worded.
#[derive(Debug)]
pub struct ChangedPath {
    pub delta: String,
    /// The kind of change; absent for a directory.
    pub change: Option<String>,
    pub path: String,
}

/// A comparison of two dumps; sizes and paths are already worded.
#[derive(Debug)]
pub struct DiffReport {
    pub old_root: String,
    pub new_root: String,
    pub disk_delta: String,
    pub apparent_delta: String,
    pub entry_delta: i64,
    pub counts: ChangeCounts,
    pub top_dirs: Vec<ChangedPath>,
    pub top_entries: Vec<ChangedPath>,
}

/// The line of change counts.
pub open spec fn changes_text(c: ChangeCounts) -> Seq<char> {
    "  added "@ + text::dec(c.added as nat) + ", removed "@ + text::dec(c.removed as nat)
        + ", grown "@ + text::dec(c.grown as nat) + ", shrunk "@ + text::dec(c.shrunk as nat)
        + ", touched "@ + text::dec(c.touched as nat) + ", type-changed "@ + text::dec(
        c.type_changed as nat,
    ) + " (dirs: +"@ + text::dec(c.dirs_added as nat) + "/-"@ + text::dec(c.dirs_removed as nat)
        + ")"@
}

/// The comparison's head.
pub open spec fn diff_head(r: DiffReport) -> Seq<Seq<char>> {
    seq![
        "diff "@ + r.old_root@ + " -> "@ + r.new_root@,
        "  total: "@ + r.disk_delta@ + " disk, "@ + r.apparent_delta@ + " apparent, "@
            + signed_text(r.entry_delta) + " entries"@,
        changes_text(r.counts),
    ]
}

/// One changed path of the comparison.
pub open spec fn changed_text(p: ChangedPath) -> Seq<char> {
    let sized = "  "@ + text::padded_left(p.delta@, 12) + "  "@;
    match p.change {
        Some(change) => sized + text::padded_right(change@, 12) + "  "@ + p.path@,
        None => sized + p.path@,
    }
}

/// A list of the comparison, with its title; nothing where it is empty.
pub open spec fn changed_lines(list: Seq<ChangedPath>, title: Seq<char>) -> Seq<Seq<char>> {
    if list.len() == 0 {
        seq![]
    } else {
        seq![""@, title] + Seq::new(list.len(), |i: int| changed_text(list[i]))
    }
}

/// The comparison for people.
pub open spec fn diff_lines(r: DiffReport, top: usize) -> Seq<Seq<char>> {
    diff_head(r) + changed_lines(
        r.top_dirs@,
        "Top "@ + text::dec(top as nat) + " directories by growth:"@,
    ) + changed_lines(
        r.top_entries@,
        "Top "@ + text::dec(top as nat) + " entries by growth:"@,
    )
}

fn changes_line(c: &ChangeCounts) -> (r: String)
    ensures
        r@ == changes_text(*c),
{
    let mut r = copy_str("  added ");
    push_dec(&mut r, c.added as u128);
    r.append(", removed ");
    push_dec(&mut r, c.removed as u128);
    r.append(", grown ");
    push_dec(&mut r, c.grown as u128);
    r.append(", shrunk ");
    push_dec(&mut r, c.shrunk as u128);
    r.append(", touched ");
    push_dec(&mut r, c.touched as u128);
    r.append(", type-changed ");
    push_dec(&mut r, c.type_changed as u128);
    r.append(" (dirs: +");
    push_dec(&mut r, c.dirs_added as u128);
    r.append("/-");
    push_dec(&mut r, c.dirs_removed as u128);
    r.append(")");
    r
}

fn changed_line(p: &ChangedPath) -> (r: String)
    ensures
        r@ == changed_text(*p),
{
    let mut r = copy_str("  ");
    r.append(pad_left(p.delta.as_str(), 12).as_str());
    r.append("  ");
    if let Some(change) = &p.change {
        r.append(pad_right(change.as_str(), 12).as_str());
        r.append("  ");
    }
    r.append(p.path.as_str());
    r
}

fn push_changed(lines: &mut Vec<String>, list: &Vec<ChangedPath>, title: String)
    ensures
        text::texts(final(lines)@) == text::texts(old(lines)@) + changed_lines(list@, title@),
{
    let ghost before = text::texts(lines@);
    let ghost all = changed_lines(list@, title@);
    if list.len() == 0 {
        assert(before + all =~= before);
        return;
    }
    push_text(lines, copy_str(""));
    push_text(lines, title);
    let mut i: usize = 0;
    assert(text::texts(lines@) =~= before + all.take(2));
    while i < list.len()
        invariant
            i <= list@.len(),
            list@.len() > 0,
            all == changed_lines(list@, title@),
            text::texts(lines@) == before + all.take(i + 2),
        decreases list@.len() - i,
    {
        push_text(lines, changed_line(&list[i]));
        i = i + 1;
        assert(text::texts(lines@) =~= before + all.take(i + 2));
    }
    assert(all.take(i + 2) =~= all);
}

/// The comparison of two dumps, for people.
pub fn human_report(r: &DiffReport, top: usize) -> (lines: Vec<String>)
    ensures
        text::texts(lines@) == diff_lines(*r, top),
{
    let mut lines: Vec<String> = Vec::new();
    let mut first = copy_str("diff ");
    first.append(r.old_root.as_str());
    first.append(" -> ");
    first.append(r.new_root.as_str());
    push_text(&mut lines, first);
    let mut totals = copy_str("  total: ");
    totals.append(r.disk_delta.as_str());
    totals.append(" disk, ");
    totals.append(r.apparent_delta.as_str());
    totals.append(" apparent, ");
    totals.append(signed_string(r.entry_delta).as_str());
    totals.append(" entries");
    push_text(&mut lines, totals);
    push_text(&mut lines, changes_line(&r.counts));
    assert(text::texts(lines@) =~= diff_head(*r));
    push_changed(&mut lines, &r.top_dirs, list_title(top, " directories by growth:"));
    push_changed(&mut lines, &r.top_entries, list_title(top, " entries by growth:"));
    lines
}

/// The exit code of a comparison: one where the growth exceeds the threshold.
pub open spec fn diff_code(threshold: Option<u64>, disk_delta: i64) -> u8 {
    match threshold {
        Some(t) => if disk_delta > t {
            1
        } else {
            0
        },
        None => 0,
    }
}

/// Decides the exit code of a comparison.
pub fn diff_exit_code(threshold: Option<u64>, disk_delta: i64) -> (code: u8)
    ensures
        code == diff_code(threshold, disk_delta),
{
    match threshold {
        Some(t) => if disk_delta > 0 && disk_delta as u64 > t {
            1
        } else {
            0
        },
        None => 0,
    }
}

/// The exit code of any error in a comparison or an import.
pub const ERROR_EXIT: u8 = 2;

/// What an import did.
#[derive(Debug)]
pub struct Imported {
    pub input: String,
    pub output: String,
    pub entries: u64,
    pub dirs: u64,
    pub real: u64,
    pub apparent: u64,
    pub errors: u64,
    pub hardlink_inodes: u64,
}

/// The report of an import; nothing where the dump goes to standard output.
pub open spec fn imported_lines(i: Imported, dump_to_stdout: bool) -> Seq<Seq<char>> {
    if dump_to_stdout {
        seq![]
    } else {
        let first = seq![
            "Imported "@ + i.input@ + " into "@ + i.output@ + ": "@ + text::dec(i.entries as nat)
                + " entries ("@ + text::dec(i.dirs as nat) + " dirs), "@ + size::human(i.real)
                + " real, "@ + size::human(i.apparent) + " apparent, "@ + text::dec(
                i.errors as nat,
            ) + " errors"@,
        ];
        if i.hardlink_inodes > 0 {
            first.push(
                "  hardlinked inodes: "@ + text::dec(i.hardlink_inodes as nat)
                    + " (deduplicated, canonically attributed)"@,
            )
        } else {
            first
        }
    }
}

/// The report of an import.
pub fn import_report(i: &Imported, dump_to_stdout: bool) -> (lines: Vec<String>)
    ensures
        text::texts(lines@) == imported_lines(*i, dump_to_stdout),
{
    let mut lines: Vec<String> = Vec::new();
    if dump_to_stdout {
        assert(text::texts(lines@) =~= seq![]);
        return lines;
    }
    let mut r = copy_str("Imported ");
    r.append(i.input.as_str());
    r.append(" into ");
    r.append(i.output.as_str());
    r.append(": ");
    push_dec(&mut r, i.entries as u128);
    r.append(" entries (");
    push_dec(&mut r, i.dirs as u128);
    r.append(" dirs), ");
    push_human(&mut r, i.real);
    r.append(" real, ");
    push_human(&mut r, i.apparent);
    r.append(" apparent, ");
    push_dec(&mut r, i.errors as u128);
    r.append(" errors");
    push_text(&mut lines, r);
    assert(text::texts(lines@) =~= seq![text::texts(lines@)[0]]);
    if i.hardlink_inodes > 0 {
        let mut s = copy_str("  hardlinked inodes: ");
        push_dec(&mut s, i.hardlink_inodes as u128);
        s.append(" (deduplicated, canonically attributed)");
        push_text(&mut lines, s);
    }
    lines
}

/// A comparison never fails a probe for shrinking, nor without a threshold.
pub proof fn law_shrinking_never_fails(threshold: Option<u64>, disk_delta: i64)
    requires
        disk_delta <= 0 || threshold is None,
    ensures
        diff_code(threshold, disk_delta) == 0,
{
}

/// A probe with a lower threshold fails whenever one with a higher one does.
pub proof fn law_thresholds_are_monotone(low: u64, high: u64, disk_delta: i64)
    requires
        low <= high,
        diff_code(Some(high), disk_delta) == 1,
    ensures
        diff_code(Some(low), disk_delta) == 1,
{
}

/// A dump on standard output is never mixed with text: neither report says
/// anything, and no interface opens.
pub proof fn law_stdout_stays_clean(s: Summary, i: Imported, no_ui: bool, terminal: bool)
    ensures
        summary_lines(s, true).len() == 0,
        imported_lines(i, true).len() == 0,
        mode_of(no_ui, terminal, true) != ScanMode::Interactive,
{
}

/// Errors are always told, with the number of unreadable entries.
pub proof fn law_errors_are_told(s: Summary)
    requires
        s.errors > 0,
    ensures
        summary_lines(s, false).contains(
            text::dec(s.errors as nat)
                + " entries could not be read; most affected directories:"@,
        ),
{
    let lines = summary_lines(s, false);
    let at = (head_lines(s) + list_lines(s)).len() + 1;
    assert(lines[at as int] == error_lines(s)[1]);
}

/// Every directory and every file of the lists, as far as they are asked for, has a
/// line of its own, in the order of the lists, that starts with its own size and
/// ends in its own path, with the badge behind it exactly for a hard link.
pub proof fn law_every_listed_path_is_told(s: Summary, i: int)
    ensures
        ({
            let lines = summary_lines(s, false);
            let dirs: int = if s.top_dirs@.len() <= s.top {
                s.top_dirs@.len() as int
            } else {
                s.top as int
            };
            let files: int = if s.top_files@.len() <= s.top {
                s.top_files@.len() as int
            } else {
                s.top as int
            };
            &&& 0 <= i < dirs ==> tells_size(lines[5 + i], s.top_dirs@[i])
            &&& 0 <= i < files ==> tells_size(lines[7 + dirs + i], s.top_files@[i])
            &&& lines.len() == 7 + dirs + files + (if s.truncated {
                1int
            } else {
                0
            }) + (if s.matched is Some && s.matched->Some_0.residual_disk > 0 {
                1int
            } else {
                0
            }) + (if s.errors > 0 {
                2 + s.error_dirs@.len() as int
            } else {
                0
            })
        }),
{
    let lines = summary_lines(s, false);
    let dirs = shown_count(s.top_dirs@, s.top);
    let files = shown_count(s.top_files@, s.top);
    if 0 <= i < dirs {
        assert(lines[5 + i] == list_lines(s)[1 + i]);
        assert(lines[5 + i] == sized_lines(s.top_dirs@, dirs)[i]);
        lemma_tells_size(s.top_dirs@[i]);
    }
    if 0 <= i < files {
        assert(lines[7 + dirs + i] == list_lines(s)[3 + dirs + i]);
        assert(lines[7 + dirs + i] == sized_lines(s.top_files@, files)[i]);
        lemma_tells_size(s.top_files@[i]);
    }
}

/// Whether a line tells the size and the path of an entry, with the badge of a hard
/// link.
pub open spec fn tells_size(line: Seq<char>, p: SizedPath) -> bool {
    &&& text::starts_with(line, "  "@ + text::padded_left(size::human(p.disk), 10))
    &&& p.hardlink ==> text::ends_with(line, "  "@ + p.path@ + " ⛓"@)
    &&& !p.hardlink ==> text::ends_with(line, "  "@ + p.path@)
}

proof fn lemma_tells_size(p: SizedPath)
    ensures
        tells_size(sized_text(p), p),
{
    reveal_strlit("");
    let head = "  "@ + text::padded_left(size::human(p.disk), 10);
    let badge = if p.hardlink {
        " ⛓"@
    } else {
        ""@
    };
    let tail = "  "@ + p.path@ + badge;
    text::lemma_ends(head, tail);
    assert(sized_text(p) =~= head + tail);
    if !p.hardlink {
        assert(tail =~= "  "@ + p.path@);
    }
}

/// Two entries of one size that are no hard links have different lines if they have
/// different paths.
pub proof fn law_different_paths_have_different_lines(list: Seq<SizedPath>, n: int, i: int, j: int)
    requires
        0 <= i < n <= list.len(),
        0 <= j < n,
        list[i].disk == list[j].disk,
        list[i].hardlink == list[j].hardlink,
        list[i].path@ != list[j].path@,
    ensures
        sized_lines(list, n)[i] != sized_lines(list, n)[j],
{
    let p = list[i];
    let q = list[j];
    let head = "  "@ + text::padded_left(size::human(p.disk), 10) + "  "@;
    let badge = if p.hardlink {
        " ⛓"@
    } else {
        ""@
    };
    let a = sized_text(p);
    let b = sized_text(q);
    assert(a =~= head + p.path@ + badge);
    assert(b =~= head + q.path@ + badge);
    if a == b {
        let from = head.len() as int;
        let to = a.len() - badge.len();
        assert(a.subrange(from, to) =~= p.path@);
        assert(b.subrange(from, to) =~= q.path@);
    }
}

/// Whether a line tells how much a path changed, in which way, and which it is.
pub open spec fn tells_change(line: Seq<char>, p: ChangedPath) -> bool {
    &&& text::starts_with(line, "  "@ + text::padded_left(p.delta@, 12))
    &&& text::ends_with(line, "  "@ + p.path@)
    &&& p.change matches Some(change) ==> text::occurs_in(line, change@)
}

proof fn lemma_tells_change(p: ChangedPath)
    ensures
        tells_change(changed_text(p), p),
{
    let head = "  "@ + text::padded_left(p.delta@, 12);
    let tail = "  "@ + p.path@;
    match p.change {
        Some(change) => {
            let word = text::padded_right(change@, 12);
            text::law_padding_keeps_the_text(change@, 12);
            let pad = word.skip(change@.len() as int);
            text::lemma_ends(head, "  "@ + word + tail);
            text::lemma_ends(head + "  "@ + word, tail);
            text::lemma_occurs(head + "  "@, change@, pad + tail);
            assert(word =~= change@ + pad) by {
                assert(word.take(change@.len() as int) =~= change@);
            }
            assert(changed_text(p) =~= head + ("  "@ + word + tail));
            assert(changed_text(p) =~= head + "  "@ + word + tail);
            assert(changed_text(p) =~= head + "  "@ + change@ + (pad + tail));
        },
        None => {
            text::lemma_ends(head, tail);
            assert(changed_text(p) =~= head + tail);
        },
    }
}

/// Every changed path is told: each element of either list has a line of its own,
/// in the list's order, that starts with its own delta, holds its own kind of change
/// and ends in its own path; an empty list has no title either.
pub proof fn law_every_changed_path_is_told(r: DiffReport, top: usize, i: int)
    ensures
        ({
            let lines = diff_lines(r, top);
            let dirs: int = if r.top_dirs@.len() == 0 {
                0
            } else {
                2 + r.top_dirs@.len() as int
            };
            let entries: int = if r.top_entries@.len() == 0 {
                0
            } else {
                2 + r.top_entries@.len() as int
            };
            &&& lines.len() == 3 + dirs + entries
            &&& 0 <= i < r.top_dirs@.len() ==> tells_change(lines[5 + i], r.top_dirs@[i])
            &&& 0 <= i < r.top_entries@.len() ==> tells_change(
                lines[5 + dirs + i],
                r.top_entries@[i],
            )
        }),
{
    let lines = diff_lines(r, top);
    let dirs = changed_lines(
        r.top_dirs@,
        "Top "@ + text::dec(top as nat) + " directories by growth:"@,
    );
    let entries = changed_lines(
        r.top_entries@,
        "Top "@ + text::dec(top as nat) + " entries by growth:"@,
    );
    if 0 <= i < r.top_dirs@.len() {
        assert(lines[5 + i] == dirs[2 + i]);
        assert(lines[5 + i] == changed_text(r.top_dirs@[i]));
        lemma_tells_change(r.top_dirs@[i]);
    }
    if 0 <= i < r.top_entries@.len() {
        assert(lines[5 + dirs.len() + i] == entries[2 + i]);
        assert(lines[5 + dirs.len() + i] == changed_text(r.top_entries@[i]));
        lemma_tells_change(r.top_entries@[i]);
    }
}

/// Two directories that changed by the same amount have different lines if they have
/// different paths.
pub proof fn law_different_changes_have_different_lines(p: ChangedPath, q: ChangedPath)
    requires
        p.delta@ == q.delta@,
        p.change is None,
        q.change is None,
        p.path@ != q.path@,
    ensures
        changed_text(p) != changed_text(q),
{
    let head = "  "@ + text::padded_left(p.delta@, 12) + "  "@;
    assert(changed_text(p) =~= head + p.path@);
    assert(changed_text(q) =~= head + q.path@);
    if changed_text(p) == changed_text(q) {
        assert(changed_text(p).skip(head.len() as int) =~= p.path@);
        assert(changed_text(q).skip(head.len() as int) =~= q.path@);
    }
}

/// A signed count reads back: the sign comes first, a plus for zero and above, and
/// the digits are those of its size.
pub proof fn law_signed_counts_read_back(n: i64)
    ensures
        signed_text(n).len() > 1,
        signed_text(n)[0] == (if n < 0 {
            '-'
        } else {
            '+'
        }),
        text::value(signed_text(n).skip(1)) == (if n < 0 {
            -n
        } else {
            n as int
        }),
{
    reveal_strlit("-");
    reveal_strlit("+");
    let size: nat = if n < 0 {
        (-n) as nat
    } else {
        n as nat
    };
    text::law_decimals_read_back(size);
    assert(signed_text(n).skip(1) =~= text::dec(size));
}

/// The comparison names its two sides, old before new, and labels each delta.
pub proof fn law_comparison_labels_its_deltas(r: DiffReport, top: usize)
    ensures
        ({
            let lines = diff_lines(r, top);
            &&& text::starts_with(lines[0], "diff "@ + r.old_root@ + " -> "@)
            &&& text::ends_with(lines[0], " -> "@ + r.new_root@)
            &&& text::occurs_in(lines[1], r.disk_delta@ + " disk, "@)
            &&& text::occurs_in(lines[1], r.apparent_delta@ + " apparent, "@)
            &&& text::ends_with(lines[1], signed_text(r.entry_delta) + " entries"@)
            &&& lines[2] == changes_text(r.counts)
        }),
{
    let lines = diff_lines(r, top);
    assert(lines[0] == diff_head(r)[0]);
    assert(lines[1] == diff_head(r)[1]);
    assert(lines[2] == diff_head(r)[2]);
    text::lemma_ends("diff "@ + r.old_root@ + " -> "@, r.new_root@);
    text::lemma_side_by_side("diff "@ + r.old_root@, " -> "@, r.new_root@);
    let l0 = "  total: "@;
    let l1 = l0 + r.disk_delta@ + " disk, "@;
    let l2 = l1 + r.apparent_delta@ + " apparent, "@;
    text::lemma_side_by_side(l0, r.disk_delta@, " disk, "@);
    text::lemma_side_by_side(l1, r.apparent_delta@, " apparent, "@);
    text::lemma_side_by_side(l2, signed_text(r.entry_delta), " entries"@);
    let disk = r.disk_delta@ + " disk, "@;
    let apparent = r.apparent_delta@ + " apparent, "@;
    text::lemma_extend(l1, disk, r.apparent_delta@);
    text::lemma_extend(l1 + r.apparent_delta@, disk, " apparent, "@);
    text::lemma_extend(l2, disk, signed_text(r.entry_delta));
    text::lemma_extend(l2 + signed_text(r.entry_delta), disk, " entries"@);
    text::lemma_extend(l2, apparent, signed_text(r.entry_delta));
    text::lemma_extend(l2 + signed_text(r.entry_delta), apparent, " entries"@);
}

/// Each kind of change stands in front of the number of its own.
pub proof fn law_change_counts_are_labeled(c: ChangeCounts)
    ensures
        ({
            let line = changes_text(c);
            &&& text::starts_with(line, "  added "@ + text::dec(c.added as nat) + ", "@)
            &&& text::occurs_in(line, ", removed "@ + text::dec(c.removed as nat))
            &&& text::occurs_in(line, ", grown "@ + text::dec(c.grown as nat))
            &&& text::occurs_in(line, ", shrunk "@ + text::dec(c.shrunk as nat))
            &&& text::occurs_in(line, ", touched "@ + text::dec(c.touched as nat))
            &&& text::occurs_in(line, ", type-changed "@ + text::dec(c.type_changed as nat))
            &&& text::occurs_in(line, " (dirs: +"@ + text::dec(c.dirs_added as nat))
            &&& text::ends_with(line, text::dec(c.dirs_removed as nat) + ")"@)
        }),
{
    let added = text::dec(c.added as nat);
    let removed = text::dec(c.removed as nat);
    let grown = text::dec(c.grown as nat);
    let shrunk = text::dec(c.shrunk as nat);
    let touched = text::dec(c.touched as nat);
    let typed = text::dec(c.type_changed as nat);
    let more = text::dec(c.dirs_added as nat);
    let fewer = text::dec(c.dirs_removed as nat);
    let l1 = "  added "@ + added;
    let l2 = l1 + ", removed "@ + removed;
    let l3 = l2 + ", grown "@ + grown;
    let l4 = l3 + ", shrunk "@ + shrunk;
    let l5 = l4 + ", touched "@ + touched;
    let l6 = l5 + ", type-changed "@ + typed;
    let l7 = l6 + " (dirs: +"@ + more;
    let line = l7 + "/-"@ + fewer + ")"@;
    assert(line == changes_text(c));
    reveal_strlit(", ");
    reveal_strlit(", removed ");
    let first = l1 + ", "@;
    assert((l1 + ", removed "@).take(first.len() as int) =~= first);
    text::lemma_extend(l1 + ", removed "@, first, removed);
    lemma_labels(l1, ", removed "@, removed);
    lemma_labels(l2, ", grown "@, grown);
    lemma_labels(l3, ", shrunk "@, shrunk);
    lemma_labels(l4, ", touched "@, touched);
    lemma_labels(l5, ", type-changed "@, typed);
    lemma_labels(l6, " (dirs: +"@, more);
    let a = ", removed "@ + removed;
    let b = ", grown "@ + grown;
    let d = ", shrunk "@ + shrunk;
    let e = ", touched "@ + touched;
    let f = ", type-changed "@ + typed;
    lemma_stays_by(l2, a, ", grown "@, grown);
    lemma_stays_by(l3, a, ", shrunk "@, shrunk);
    lemma_stays_by(l4, a, ", touched "@, touched);
    lemma_stays_by(l5, a, ", type-changed "@, typed);
    lemma_stays_by(l6, a, " (dirs: +"@, more);
    lemma_stays_by(l3, b, ", shrunk "@, shrunk);
    lemma_stays_by(l4, b, ", touched "@, touched);
    lemma_stays_by(l5, b, ", type-changed "@, typed);
    lemma_stays_by(l6, b, " (dirs: +"@, more);
    lemma_stays_by(l4, d, ", touched "@, touched);
    lemma_stays_by(l5, d, ", type-changed "@, typed);
    lemma_stays_by(l6, d, " (dirs: +"@, more);
    lemma_stays_by(l5, e, ", type-changed "@, typed);
    lemma_stays_by(l6, e, " (dirs: +"@, more);
    lemma_stays_by(l6, f, " (dirs: +"@, more);
    lemma_stays_by(l2, first, ", grown "@, grown);
    lemma_stays_by(l3, first, ", shrunk "@, shrunk);
    lemma_stays_by(l4, first, ", touched "@, touched);
    lemma_stays_by(l5, first, ", type-changed "@, typed);
    lemma_stays_by(l6, first, " (dirs: +"@, more);
    lemma_stays_thrice(l7, first, "/-"@, fewer, ")"@);
    lemma_stays_thrice(l7, a, "/-"@, fewer, ")"@);
    lemma_stays_thrice(l7, b, "/-"@, fewer, ")"@);
    lemma_stays_thrice(l7, d, "/-"@, fewer, ")"@);
    lemma_stays_thrice(l7, e, "/-"@, fewer, ")"@);
    lemma_stays_thrice(l7, f, "/-"@, fewer, ")"@);
    lemma_stays_thrice(l7, " (dirs: +"@ + more, "/-"@, fewer, ")"@);
    text::lemma_side_by_side(l7 + "/-"@, fewer, ")"@);
}

/// A label and its number, put behind a text, stand in it.
proof fn lemma_labels(x: Seq<char>, label: Seq<char>, number: Seq<char>)
    ensures
        text::occurs_in(x + label + number, label + number),
{
    text::lemma_side_by_side(x, label, number);
}

proof fn lemma_stays_by(x: Seq<char>, part: Seq<char>, label: Seq<char>, number: Seq<char>)
    ensures
        text::occurs_in(x, part) ==> text::occurs_in(x + label + number, part),
        text::starts_with(x, part) ==> text::starts_with(x + label + number, part),
{
    text::lemma_extend(x, part, label);
    text::lemma_extend(x + label, part, number);
}

proof fn lemma_stays_thrice(
    x: Seq<char>,
    part: Seq<char>,
    a: Seq<char>,
    b: Seq<char>,
    c: Seq<char>,
)
    ensures
        text::occurs_in(x, part) ==> text::occurs_in(x + a + b + c, part),
        text::starts_with(x, part) ==> text::starts_with(x + a + b + c, part),
{
    lemma_stays_by(x, part, a, b);
    text::lemma_extend(x + a + b, part, c);
}

/// A comparison fails a probe exactly when the disk grew by more than the threshold:
/// growth of the threshold itself passes, and a byte more fails.
pub proof fn law_threshold_is_exclusive(t: i64)
    requires
        0 <= t < i64::MAX,
    ensures
        diff_code(Some(t as u64), t) == 0,
        diff_code(Some(t as u64), (t + 1) as i64) == 1,
{
}

/// The interface opens exactly on a terminal that is not also the dump, unless it is
/// switched off; only a dump onto the interface's terminal is refused.
pub proof fn law_interface_needs_the_terminal(no_ui: bool, terminal: bool, dump_to_stdout: bool)
    ensures
        mode_of(no_ui, terminal, dump_to_stdout) is Interactive <==> terminal && !no_ui
            && !dump_to_stdout,
        mode_of(no_ui, terminal, dump_to_stdout) is Refused ==> dump_to_stdout,
        no_ui ==> mode_of(no_ui, terminal, dump_to_stdout) is Summary,
        !terminal ==> mode_of(no_ui, terminal, dump_to_stdout) is Summary,
{
}

/// Every problem of a filter is told, in order, under their number.
pub proof fn law_every_problem_is_told(errors: Seq<String>, i: int)
    requires
        0 <= i < errors.len(),
    ensures
        problems(errors).len() == errors.len() + 1,
        text::occurs_in(problems(errors)[0], text::dec(errors.len())),
        text::ends_with(problems(errors)[i + 1], errors[i]@),
        problems(errors)[i + 1].len() == errors[i]@.len() + 2,
{
    reveal_strlit("  ");
    text::lemma_occurs(
        "camembert: --filter has "@,
        text::dec(errors.len()),
        " problem(s) and will not run:"@,
    );
    text::lemma_ends("  "@, errors[i]@);
}

/// The largest directories come first: none of those left out is larger than one
/// that is listed, and none is listed twice.
pub proof fn law_top_directories_are_the_largest(
    dirs: &[DirSize],
    all: Seq<usize>,
    i: int,
    j: int,
)
    requires
        order::is_sorted_order(all, dirs@.len(), (DirOrder { dirs })),
        0 <= i < j < all.len(),
    ensures
        dirs@[all[i] as int].disk >= dirs@[all[j] as int].disk,
        all[i] != all[j],
{
    let o = DirOrder { dirs };
    assert(o.before(all[i], all[j]));
    o.irreflexive(all[i]);
}

/// The totals label the real and the apparent size as what they are: those of the
/// scan, or with a filter those of what it matched, together with what was scanned.
pub proof fn law_totals_are_labeled(s: Summary)
    ensures
        ({
            let line = summary_lines(s, false)[1];
            match s.matched {
                Some(m) => {
                    &&& text::starts_with(line, "  matched (--filter "@ + m.filter@ + "): "@)
                    &&& text::occurs_in(line, size::human(m.disk) + " real, "@)
                    &&& text::occurs_in(line, size::human(m.apparent) + " apparent, "@)
                    &&& text::occurs_in(line, text::dec(m.entries as nat) + " entries — of "@)
                    &&& text::ends_with(line, size::human(s.real) + " real scanned"@)
                },
                None => {
                    &&& text::occurs_in(line, size::human(s.real) + " real, "@)
                    &&& text::ends_with(line, size::human(s.apparent) + " apparent"@)
                },
            }
        }),
{
    let line = summary_lines(s, false)[1];
    assert(line == head_lines(s)[1]);
    match s.matched {
        Some(m) => {
            let disk = size::human(m.disk);
            let apparent = size::human(m.apparent);
            let entries = text::dec(m.entries as nat);
            let scanned = size::human(s.real);
            let l0 = "  matched (--filter "@ + m.filter@ + "): "@;
            let l1 = l0 + disk + " real, "@;
            let l2 = l1 + apparent + " apparent, "@;
            let l3 = l2 + entries + " entries — of "@;
            assert(line == l3 + scanned + " real scanned"@);
            assert(text::starts_with(l0, l0)) by {
                assert(l0.take(l0.len() as int) =~= l0);
            }
            lemma_labels(l0, disk, " real, "@);
            lemma_labels(l1, apparent, " apparent, "@);
            lemma_labels(l2, entries, " entries — of "@);
            text::lemma_side_by_side(l3, scanned, " real scanned"@);
            lemma_stays_by(l0, l0, disk, " real, "@);
            lemma_stays_by(l1, l0, apparent, " apparent, "@);
            lemma_stays_by(l2, l0, entries, " entries — of "@);
            lemma_stays_by(l3, l0, scanned, " real scanned"@);
            lemma_stays_by(l1, disk + " real, "@, apparent, " apparent, "@);
            lemma_stays_by(l2, disk + " real, "@, entries, " entries — of "@);
            lemma_stays_by(l3, disk + " real, "@, scanned, " real scanned"@);
            lemma_stays_by(l2, apparent + " apparent, "@, entries, " entries — of "@);
            lemma_stays_by(l3, apparent + " apparent, "@, scanned, " real scanned"@);
            lemma_stays_by(l3, entries + " entries — of "@, scanned, " real scanned"@);
        },
        None => {
            let disk = size::human(s.real);
            let apparent = size::human(s.apparent);
            let l1 = "  total: "@ + disk + " real, "@;
            assert(line == l1 + apparent + " apparent"@);
            lemma_labels("  total: "@, disk, " real, "@);
            text::lemma_side_by_side(l1, apparent, " apparent"@);
            lemma_stays_by(l1, disk + " real, "@, apparent, " apparent"@);
        },
    }
}

/// Every count of the summary stands behind its label; the hard links are told if
/// there are any or if they were not counted, with what the count is worth.
pub proof fn law_counts_are_labeled(s: Summary)
    ensures
        ({
            let line = summary_lines(s, false)[2];
            let links = "  hardlinked inodes: "@ + text::dec(s.hardlink_inodes as nat);
            &&& text::starts_with(line, "  entries: "@ + text::dec(s.entries as nat) + " ("@)
            &&& text::occurs_in(line, text::dec(s.dirs as nat) + " dirs)  errors: "@)
            &&& text::occurs_in(
                line,
                " dirs)  errors: "@ + text::dec(s.errors as nat) + "  excluded mounts: "@,
            )
            &&& text::occurs_in(
                line,
                "  excluded mounts: "@ + text::dec(s.excluded_dirs as nat) + " ("@,
            )
            &&& text::occurs_in(line, text::dec(s.excluded_kernfs as nat) + " kernfs)"@)
            &&& s.hardlink_inodes > 0 || !s.link_counts_known ==> text::occurs_in(line, links)
                && text::ends_with(line, qualifier_text(s.link_counts_known) + ")"@)
            &&& s.hardlink_inodes == 0 && s.link_counts_known ==> text::ends_with(
                line,
                " kernfs)"@,
            )
        }),
{
    let line = summary_lines(s, false)[2];
    assert(line == head_lines(s)[2]);
    let entries = text::dec(s.entries as nat);
    let dirs = text::dec(s.dirs as nat);
    let errors = text::dec(s.errors as nat);
    let mounts = text::dec(s.excluded_dirs as nat);
    let kernfs = text::dec(s.excluded_kernfs as nat);
    let links = text::dec(s.hardlink_inodes as nat);
    let l0 = "  entries: "@ + entries + " ("@;
    let l1 = l0 + dirs + " dirs)  errors: "@;
    let l2 = l1 + errors + "  excluded mounts: "@;
    let l3 = l2 + mounts + " ("@;
    let l4 = l3 + kernfs + " kernfs)"@;
    let a = dirs + " dirs)  errors: "@;
    let b = " dirs)  errors: "@ + errors + "  excluded mounts: "@;
    let c = "  excluded mounts: "@ + mounts + " ("@;
    let d = kernfs + " kernfs)"@;
    assert(text::starts_with(l0, l0)) by {
        assert(l0.take(l0.len() as int) =~= l0);
    }
    lemma_labels(l0, dirs, " dirs)  errors: "@);
    lemma_three(l0 + dirs, " dirs)  errors: "@, errors, "  excluded mounts: "@);
    lemma_three(l1 + errors, "  excluded mounts: "@, mounts, " ("@);
    lemma_labels(l3, kernfs, " kernfs)"@);
    lemma_stays_by(l0, l0, dirs, " dirs)  errors: "@);
    lemma_stays_by(l1, l0, errors, "  excluded mounts: "@);
    lemma_stays_by(l2, l0, mounts, " ("@);
    lemma_stays_by(l3, l0, kernfs, " kernfs)"@);
    lemma_stays_by(l1, a, errors, "  excluded mounts: "@);
    lemma_stays_by(l2, a, mounts, " ("@);
    lemma_stays_by(l3, a, kernfs, " kernfs)"@);
    lemma_stays_by(l2, b, mounts, " ("@);
    lemma_stays_by(l3, b, kernfs, " kernfs)"@);
    lemma_stays_by(l3, c, kernfs, " kernfs)"@);
    if s.hardlink_inodes > 0 || !s.link_counts_known {
        let worth = qualifier_text(s.link_counts_known);
        let l5 = l4 + "  hardlinked inodes: "@ + links;
        let e = "  hardlinked inodes: "@ + links;
        assert(line == l5 + " ("@ + worth + ")"@);
        lemma_labels(l4, "  hardlinked inodes: "@, links);
        lemma_stays_by(l4, l0, "  hardlinked inodes: "@, links);
        lemma_stays_by(l4, a, "  hardlinked inodes: "@, links);
        lemma_stays_by(l4, b, "  hardlinked inodes: "@, links);
        lemma_stays_by(l4, c, "  hardlinked inodes: "@, links);
        lemma_stays_by(l4, d, "  hardlinked inodes: "@, links);
        lemma_stays_thrice(l5, l0, " ("@, worth, ")"@);
        lemma_stays_thrice(l5, a, " ("@, worth, ")"@);
        lemma_stays_thrice(l5, b, " ("@, worth, ")"@);
        lemma_stays_thrice(l5, c, " ("@, worth, ")"@);
        lemma_stays_thrice(l5, d, " ("@, worth, ")"@);
        lemma_stays_thrice(l5, e, " ("@, worth, ")"@);
        text::lemma_side_by_side(l5 + " ("@, worth, ")"@);
    } else {
        assert(line == l4);
        text::lemma_ends(l3 + kernfs, " kernfs)"@);
    }
}

/// Three texts put behind another stand there side by side.
proof fn lemma_three(x: Seq<char>, a: Seq<char>, b: Seq<char>, c: Seq<char>)
    ensures
        text::occurs_in(x + a + b + c, a + b + c),
{
    text::lemma_side_by_side(x, a, b);
    text::lemma_side_by_side(x, a + b, c);
}

/// Where the links outside the scan were not counted, the summary says so and how to
/// have them counted; otherwise it does not.
pub proof fn law_unchecked_links_are_told()
    ensures
        text::ends_with(
            qualifier_text(false),
            "Links outside it were not checked — `--links`"@,
        ),
        !text::occurs_in(qualifier_text(true), "--links"@),
{
    reveal_strlit(
        "reached by more than one path in this scan; each counted once. Links outside it were not checked — `--links`",
    );
    reveal_strlit("Links outside it were not checked — `--links`");
    reveal_strlit("each counted once");
    reveal_strlit("--links");
    let long = qualifier_text(false);
    let said = "Links outside it were not checked — `--links`"@;
    assert(long.skip(long.len() - said.len()) =~= said);
    let short = qualifier_text(true);
    let part = "--links"@;
    if text::occurs_in(short, part) {
        let i = choose|i: int| text::occurs_at(short, part, i);
        assert(short.subrange(i, i + part.len())[0] == '-');
        assert(short[i] == '-');
    }
}

/// The summary opens with the scanned path and the time it took.
#[verifier::rlimit(40)]
pub proof fn law_summary_names_the_scan(s: Summary)
    ensures
        text::starts_with(summary_lines(s, false)[0], "Scanned "@ + s.path@ + " in "@),
        text::ends_with(summary_lines(s, false)[0], s.seconds@ + "s"@),
{
    let line = summary_lines(s, false)[0];
    let l0 = "Scanned "@ + s.path@ + " in "@;
    assert(line == head_lines(s)[0]);
    assert(text::starts_with(l0, l0)) by {
        assert(l0.take(l0.len() as int) =~= l0);
    }
    lemma_stays_by(l0, l0, s.seconds@, "s"@);
    text::lemma_side_by_side(l0, s.seconds@, "s"@);
}

/// Every directory with unreadable entries is told with their number, in order, at
/// the end of the summary.
pub proof fn law_unreadable_directories_are_told(s: Summary, i: int)
    requires
        s.errors > 0,
        0 <= i < s.error_dirs@.len(),
    ensures
        ({
            let lines = summary_lines(s, false);
            let line = lines[lines.len() - s.error_dirs@.len() + i];
            &&& text::starts_with(
                line,
                "  "@ + text::padded_left(text::dec(s.error_dirs@[i].0 as nat), 6),
            )
            &&& text::ends_with(line, " errors  "@ + s.error_dirs@[i].1@)
        }),
{
    let lines = summary_lines(s, false);
    let at = lines.len() - s.error_dirs@.len() + i;
    let e = s.error_dirs@[i];
    assert(lines[at] == error_lines(s)[2 + i]);
    assert(lines[at] == error_text(e));
    let head = "  "@ + text::padded_left(text::dec(e.0 as nat), 6);
    text::lemma_ends(head, " errors  "@ + e.1@);
    assert(error_text(e) =~= head + (" errors  "@ + e.1@));
}

/// What the lists leave out is told: the cap whenever there were more files, and the
/// directories' own bytes whenever a filter left any.
pub proof fn law_omissions_are_told(s: Summary)
    ensures
        s.truncated ==> summary_lines(s, false).contains(cap_text(s.flat_cap)) && text::occurs_in(
            cap_text(s.flat_cap),
            text::dec(s.flat_cap as nat),
        ),
        s.matched matches Some(m) ==> m.residual_disk > 0 ==> {
            let line = residual_text(m.residual_disk, m.residual_dirs);
            &&& summary_lines(s, false).contains(line)
            &&& text::occurs_in(line, size::human(m.residual_disk))
            &&& text::occurs_in(line, text::dec(m.residual_dirs as nat))
        },
{
    let lines = summary_lines(s, false);
    let dirs = shown_count(s.top_dirs@, s.top);
    let files = shown_count(s.top_files@, s.top);
    let at = 7 + dirs + files;
    if s.truncated {
        assert(lines[at] == list_lines(s)[3 + dirs + files]);
        assert(lines[at] == cap_text(s.flat_cap));
        text::lemma_occurs(
            "  (top "@,
            text::dec(s.flat_cap as nat),
            " of more eligible files shown; flat_cap in camembert.toml)"@,
        );
    }
    if s.matched is Some && s.matched->Some_0.residual_disk > 0 {
        let m = s.matched->Some_0;
        let line = residual_text(m.residual_disk, m.residual_dirs);
        let k: int = if s.truncated {
            at + 1
        } else {
            at
        };
        assert(lines[k] == list_lines(s)[k - 4]);
        assert(lines[k] == line);
        let disk = size::human(m.residual_disk);
        let n = text::dec(m.residual_dirs as nat);
        let tail = " directory inode(s), never matched by any query)"@;
        text::lemma_occurs("  (+"@, disk, " in "@ + n + tail);
        assert(line =~= "  (+"@ + disk + (" in "@ + n + tail));
        text::lemma_occurs("  (+"@ + disk + " in "@, n, tail);
    }
}

/// An import names its input before its output and labels its figures; hard links
/// are told exactly if there are any.
pub proof fn law_imports_are_labeled(i: Imported)
    ensures
        ({
            let lines = imported_lines(i, false);
            let line = lines[0];
            &&& text::starts_with(line, "Imported "@ + i.input@ + " into "@ + i.output@ + ": "@)
            &&& text::occurs_in(line, text::dec(i.entries as nat) + " entries ("@)
            &&& text::occurs_in(line, text::dec(i.dirs as nat) + " dirs), "@)
            &&& text::occurs_in(line, size::human(i.real) + " real, "@)
            &&& text::occurs_in(line, size::human(i.apparent) + " apparent, "@)
            &&& text::ends_with(line, text::dec(i.errors as nat) + " errors"@)
            &&& lines.len() == (if i.hardlink_inodes > 0 {
                2int
            } else {
                1
            })
            &&& i.hardlink_inodes > 0 ==> text::starts_with(
                lines[1],
                "  hardlinked inodes: "@ + text::dec(i.hardlink_inodes as nat),
            )
        }),
{
    let line = imported_lines(i, false)[0];
    let entries = text::dec(i.entries as nat);
    let dirs = text::dec(i.dirs as nat);
    let disk = size::human(i.real);
    let apparent = size::human(i.apparent);
    let errors = text::dec(i.errors as nat);
    let l0 = "Imported "@ + i.input@ + " into "@ + i.output@ + ": "@;
    let l1 = l0 + entries + " entries ("@;
    let l2 = l1 + dirs + " dirs), "@;
    let l3 = l2 + disk + " real, "@;
    let l4 = l3 + apparent + " apparent, "@;
    assert(line == l4 + errors + " errors"@);
    let a = entries + " entries ("@;
    let b = dirs + " dirs), "@;
    let c = disk + " real, "@;
    let d = apparent + " apparent, "@;
    assert(text::starts_with(l0, l0)) by {
        assert(l0.take(l0.len() as int) =~= l0);
    }
    lemma_labels(l0, entries, " entries ("@);
    lemma_labels(l1, dirs, " dirs), "@);
    lemma_labels(l2, disk, " real, "@);
    lemma_labels(l3, apparent, " apparent, "@);
    text::lemma_side_by_side(l4, errors, " errors"@);
    lemma_stays_by(l0, l0, entries, " entries ("@);
    lemma_stays_by(l1, l0, dirs, " dirs), "@);
    lemma_stays_by(l2, l0, disk, " real, "@);
    lemma_stays_by(l3, l0, apparent, " apparent, "@);
    lemma_stays_by(l4, l0, errors, " errors"@);
    lemma_stays_by(l1, a, dirs, " dirs), "@);
    lemma_stays_by(l2, a, disk, " real, "@);
    lemma_stays_by(l3, a, apparent, " apparent, "@);
    lemma_stays_by(l4, a, errors, " errors"@);
    lemma_stays_by(l2, b, disk, " real, "@);
    lemma_stays_by(l3, b, apparent, " apparent, "@);
    lemma_stays_by(l4, b, errors, " errors"@);
    lemma_stays_by(l3, c, apparent, " apparent, "@);
    lemma_stays_by(l4, c, errors, " errors"@);
    lemma_stays_by(l4, d, errors, " errors"@);
    text::lemma_ends(
        "  hardlinked inodes: "@ + text::dec(i.hardlink_inodes as nat),
        " (deduplicated, canonically attributed)"@,
    );
}

} // verus!
