//! The filter and command palette: its text buffer, its history, and the fuzzy
//! search of commands.

use crate::keymap;
use crate::keymap::{simple_keys, SimpleAction};
use crate::order;
use crate::order::{sort_positions, StrictOrder};
use crate::text;
use crate::text::{chars_of, string_of, sub_chars, to_lower};
use vstd::prelude::*;
use vstd::string::*;

verus! {

/// Which half of the palette is showing.
#[derive(Debug, Clone, Copy, PartialEq, Eq, Structural)]
pub enum PaletteMode {
    Query,
    Command,
}

/// What running a command does.
#[derive(Debug, Clone, Copy, PartialEq, Eq, Structural)]
pub enum CommandAction {
    Simple(SimpleAction),
    ReviewMarks,
    DeleteMarked,
    FreeablePanel,
    ClearFilter,
    Quit,
}

/// One command that the palette can find and run.
#[derive(Debug, Clone, Copy)]
pub struct PaletteCommand {
    pub label: &'static str,
    /// The keys that already do this.
    pub hint: &'static str,
    pub action: CommandAction,
}

/// A command as values.
pub struct CommandRow {
    pub label: Seq<char>,
    pub hint: Seq<char>,
    pub action: CommandAction,
}

impl PaletteCommand {
    /// The command as values.
    pub open spec fn row(&self) -> CommandRow {
        CommandRow { label: self.label@, hint: self.hint@, action: self.action }
    }
}

/// The commands that are no simple shortcut.
pub open spec fn panel_commands() -> Seq<CommandRow> {
    seq![
        CommandRow {
            label: "review marked entries"@,
            hint: "v"@,
            action: CommandAction::ReviewMarks,
        },
        CommandRow {
            label: "delete marked entries"@,
            hint: "D"@,
            action: CommandAction::DeleteMarked,
        },
        CommandRow {
            label: "freeable files panel"@,
            hint: "f"@,
            action: CommandAction::FreeablePanel,
        },
        CommandRow {
            label: "clear active filter"@,
            hint: "Esc"@,
            action: CommandAction::ClearFilter,
        },
        CommandRow { label: "quit"@, hint: "q"@, action: CommandAction::Quit },
    ]
}

/// Every command: one per simple shortcut, then the others.
pub open spec fn command_table() -> Seq<CommandRow> {
    Seq::new(
        keymap::simple_table().len(),
        |i: int|
            CommandRow {
                label: keymap::simple_table()[i].action,
                hint: keymap::simple_table()[i].keys,
                action: CommandAction::Simple(keymap::simple_table()[i].apply),
            },
    ) + panel_commands()
}

/// Every command that the palette offers.
pub fn all_commands() -> (r: Vec<PaletteCommand>)
    ensures
        rows_of(r@) == command_table(),
{
    let keys = simple_keys();
    let mut r: Vec<PaletteCommand> = Vec::new();
    let mut i: usize = 0;
    while i < keys.len()
        invariant
            i <= keys@.len(),
            keys@.len() == keymap::simple_table().len(),
            forall|k: int|
                0 <= k < keys@.len() ==> (#[trigger] keys@[k]).row() == keymap::simple_table()[k],
            r@.len() == i,
            forall|k: int| 0 <= k < i ==> (#[trigger] r@[k]).row() == command_table()[k],
        decreases keys@.len() - i,
    {
        assert(keys@[i as int].row() == keymap::simple_table()[i as int]);
        r.push(
            PaletteCommand {
                label: keys[i].action,
                hint: keys[i].keys,
                action: CommandAction::Simple(keys[i].apply),
            },
        );
        i = i + 1;
    }
    r.push(
        PaletteCommand {
            label: "review marked entries",
            hint: "v",
            action: CommandAction::ReviewMarks,
        },
    );
    r.push(
        PaletteCommand {
            label: "delete marked entries",
            hint: "D",
            action: CommandAction::DeleteMarked,
        },
    );
    r.push(
        PaletteCommand {
            label: "freeable files panel",
            hint: "f",
            action: CommandAction::FreeablePanel,
        },
    );
    r.push(
        PaletteCommand {
            label: "clear active filter",
            hint: "Esc",
            action: CommandAction::ClearFilter,
        },
    );
    r.push(PaletteCommand { label: "quit", hint: "q", action: CommandAction::Quit });
    assert(rows_of(r@) =~= command_table());
    r
}

/// The first position of a character in a text from a position on.
pub open spec fn first_from(hay: Seq<char>, from: int, c: char) -> Option<int>
    decreases hay.len() - from,
{
    if from < 0 || from >= hay.len() {
        None
    } else if hay[from] == c {
        Some(from)
    } else {
        first_from(hay, from + 1, c)
    }
}

/// Where the first `n` characters of `needle` end when each is matched as early
/// as it can be, and their score: ten for each, five more for each that follows
/// the one before directly, three more for one at the very start.
pub open spec fn matched(needle: Seq<char>, hay: Seq<char>, n: nat) -> Option<(int, int)>
    decreases n,
{
    if n == 0 {
        Some((-1, 0))
    } else {
        match matched(needle, hay, (n - 1) as nat) {
            None => None,
            Some((last, score)) => match first_from(hay, last + 1, needle[n - 1]) {
                None => None,
                Some(at) => Some(
                    (
                        at,
                        score + 10 + (if n > 1 && at == last + 1 {
                            5int
                        } else {
                            0int
                        }) + (if at == 0 {
                            3int
                        } else {
                            0int
                        }),
                    ),
                ),
            },
        }
    }
}

/// The fuzzy score of a text, with the case of ASCII letters ignored.
pub open spec fn score(needle: Seq<char>, hay: Seq<char>) -> Option<int> {
    match matched(text::lowered(needle), text::lowered(hay), needle.len()) {
        None => None,
        Some((last, score)) => Some(score),
    }
}

/// Whether the score of a match is sure to fit a machine number: each matched
/// character scores at most fifteen, and no more can match than the shorter text
/// has.
pub open spec fn score_fits(needle: Seq<char>, hay: Seq<char>) -> bool {
    15 * needle.len() <= i32::MAX || 15 * hay.len() <= i32::MAX
}

proof fn lemma_first_from(hay: Seq<char>, from: int, c: char)
    requires
        0 <= from,
    ensures
        first_from(hay, from, c) matches Some(at) ==> from <= at < hay.len() && hay[at] == c
            && forall|k: int| from <= k < at ==> hay[k] != c,
    decreases hay.len() - from,
{
    if from < hay.len() && hay[from] != c {
        lemma_first_from(hay, from + 1, c);
    }
}

proof fn lemma_matched_bounds(needle: Seq<char>, hay: Seq<char>, n: nat)
    ensures
        matched(needle, hay, n) matches Some((last, score)) ==> n - 1 <= last && (n == 0 || last
            < hay.len()) && 0 <= score <= 15 * n && (n == 0 ==> last == -1),
    decreases n,
{
    if n > 0 {
        lemma_matched_bounds(needle, hay, (n - 1) as nat);
        if let Some((last, score)) = matched(needle, hay, (n - 1) as nat) {
            lemma_first_from(hay, last + 1, needle[n - 1]);
        }
    }
}

proof fn lemma_matched_none(needle: Seq<char>, hay: Seq<char>, n: nat, m: nat)
    requires
        n <= m,
        matched(needle, hay, n) is None,
    ensures
        matched(needle, hay, m) is None,
    decreases m,
{
    if n < m {
        lemma_matched_none(needle, hay, n, (m - 1) as nat);
    }
}

/// Finds a character from a position on.
fn find_from(hay: &[char], from: usize, c: char) -> (r: Option<usize>)
    requires
        from <= hay@.len(),
    ensures
        r is Some <==> first_from(hay@, from as int, c) is Some,
        r matches Some(at) ==> first_from(hay@, from as int, c) == Some(at as int) && at
            < hay@.len(),
{
    let mut i: usize = from;
    while i < hay.len()
        invariant
            from <= i <= hay@.len(),
            first_from(hay@, from as int, c) == first_from(hay@, i as int, c),
        decreases hay@.len() - i,
    {
        if hay[i] == c {
            return Some(i);
        }
        i = i + 1;
    }
    None
}

/// Subsequence fuzzy score, with the case of ASCII letters ignored: every
/// character of `needle` must appear in `haystack` in order. Higher is better;
/// an empty needle matches everything.
pub fn fuzzy_score(needle: &str, haystack: &str) -> (r: Option<i32>)
    requires
        score_fits(needle@, haystack@),
    ensures
        r is Some <==> score(needle@, haystack@) is Some,
        r matches Some(v) ==> score(needle@, haystack@) == Some(v as int),
{
    let n = chars_of(to_lower(needle).as_str());
    let h = chars_of(to_lower(haystack).as_str());
    let mut k: usize = 0;
    let mut hi: usize = 0;
    let mut total: i32 = 0;
    while k < n.len()
        invariant
            k <= n@.len(),
            k <= hi <= h@.len(),
            n@ == text::lowered(needle@),
            h@ == text::lowered(haystack@),
            score_fits(n@, h@),
            matched(n@, h@, k as nat) == Some((hi - 1, total as int)),
            0 <= total <= 15 * k,
        decreases n@.len() - k,
    {
        proof {
            lemma_matched_bounds(n@, h@, (k + 1) as nat);
        }
        match find_from(h.as_slice(), hi, n[k]) {
            None => {
                proof {
                    assert(matched(n@, h@, (k + 1) as nat) is None);
                    lemma_matched_none(n@, h@, (k + 1) as nat, n@.len());
                }
                return None;
            },
            Some(at) => {
                proof {
                    lemma_first_from(h@, hi as int, n@[k as int]);
                }
                total = total + 10;
                if k > 0 && at == hi {
                    total = total + 5;
                }
                if at == 0 {
                    total = total + 3;
                }
                assert(at < h.len());
                hi = at + 1;
                k = k + 1;
            },
        }
    }
    Some(total)
}

/// A match is a subsequence: the characters of the needle stand in the text in
/// order.
pub proof fn law_matches_in_order(needle: Seq<char>, hay: Seq<char>)
    requires
        score(needle, hay) is Some,
    ensures
        exists|at: Seq<int>|
            {
                &&& at.len() == needle.len()
                &&& forall|k: int|
                    0 <= k < at.len() ==> 0 <= #[trigger] at[k] < hay.len() && text::lower(
                        hay[at[k]],
                    ) == text::lower(needle[k])
                &&& forall|j: int, k: int| 0 <= j < k < at.len() ==> at[j] < at[k]
            },
{
    let n = text::lowered(needle);
    let h = text::lowered(hay);
    let at = lemma_matched_positions(n, h, n.len());
    assert forall|k: int| 0 <= k < at.len() implies 0 <= #[trigger] at[k] < hay.len()
        && text::lower(hay[at[k]]) == text::lower(needle[k]) by {
        assert(h[at[k]] == n[k]);
    }
}

proof fn lemma_matched_positions(n: Seq<char>, h: Seq<char>, k: nat) -> (at: Seq<int>)
    requires
        k <= n.len(),
        matched(n, h, k) is Some,
    ensures
        at.len() == k,
        forall|i: int| 0 <= i < k ==> 0 <= #[trigger] at[i] < h.len() && h[at[i]] == n[i],
        forall|i: int, j: int| 0 <= i < j < k ==> at[i] < at[j],
        k > 0 ==> at[k - 1] == matched(n, h, k).unwrap().0,
    decreases k,
{
    if k == 0 {
        Seq::empty()
    } else {
        let before = lemma_matched_positions(n, h, (k - 1) as nat);
        let (last, s) = matched(n, h, (k - 1) as nat).unwrap();
        lemma_matched_bounds(n, h, (k - 1) as nat);
        lemma_first_from(h, last + 1, n[k - 1]);
        let p = matched(n, h, k).unwrap().0;
        let at = before.push(p);
        assert forall|i: int, j: int| 0 <= i < j < k implies at[i] < at[j] by {
            if j == k - 1 {
                assert(before[i] <= before[k - 2]);
            }
        }
        at
    }
}

/// Positions by score downwards, then upwards by position; a position without a
/// score comes last.
pub struct ScoreOrder<'a> {
    pub scores: &'a [Option<i32>],
}

impl<'a> StrictOrder for ScoreOrder<'a> {
    open spec fn has(&self, a: usize) -> bool {
        a < self.scores@.len()
    }

    open spec fn before(&self, a: usize, b: usize) -> bool {
        match (self.scores@[a as int], self.scores@[b as int]) {
            (Some(x), Some(y)) => x > y || x == y && a < b,
            (Some(x), None) => true,
            (None, Some(y)) => false,
            (None, None) => a < b,
        }
    }

    proof fn irreflexive(&self, a: usize) {
    }

    proof fn total(&self, a: usize, b: usize) {
    }

    proof fn transitive(&self, a: usize, b: usize, c: usize) {
    }

    fn precedes(&self, a: usize, b: usize) -> (r: bool) {
        match (self.scores[a], self.scores[b]) {
            (Some(x), Some(y)) => x > y || (x == y && a < b),
            (Some(_), None) => true,
            (None, Some(_)) => false,
            (None, None) => a < b,
        }
    }
}

/// Whether `r` lists the matching commands, each once, the best score first and
/// ties in the commands' own order.
pub open spec fn is_ranking(needle: Seq<char>, commands: Seq<CommandRow>, r: Seq<usize>) -> bool {
    &&& forall|p: int|
        0 <= p < r.len() ==> #[trigger] r[p] < commands.len() && score(
            needle,
            commands[r[p] as int].label,
        ) is Some
    &&& forall|k: int|
        0 <= k < commands.len() && score(needle, (#[trigger] commands[k]).label) is Some
            ==> r.contains(k as usize)
    &&& forall|p: int, q: int|
        #![trigger r[p], r[q]]
        0 <= p < q < r.len() ==> {
            let x = score(needle, commands[r[p] as int].label).unwrap();
            let y = score(needle, commands[r[q] as int].label).unwrap();
            x > y || x == y && r[p] < r[q]
        }
}

/// Commands as values.
pub open spec fn rows_of(commands: Seq<PaletteCommand>) -> Seq<CommandRow> {
    Seq::new(commands.len(), |i: int| commands[i].row())
}

/// Positions of the commands whose label matches, best match first; ties keep
/// the commands' own order.
pub fn filter_commands(needle: &str, commands: &[PaletteCommand]) -> (r: Vec<usize>)
    requires
        forall|i: int|
            0 <= i < commands@.len() ==> score_fits(needle@, (#[trigger] commands@[i]).label@),
    ensures
        is_ranking(needle@, rows_of(commands@), r@),
{
    let n: usize = commands.len();
    let mut scores: Vec<Option<i32>> = Vec::new();
    let mut i: usize = 0;
    while i < n
        invariant
            i <= n,
            n == commands@.len(),
            forall|i: int|
                0 <= i < commands@.len() ==> score_fits(needle@, (#[trigger] commands@[i]).label@),
            scores@.len() == i,
            forall|k: int|
                0 <= k < i ==> scored(needle@, (#[trigger] commands@[k]).label@, scores@[k]),
        decreases n - i,
    {
        let s = fuzzy_score(needle, commands[i].label);
        scores.push(s);
        i = i + 1;
    }
    let by = ScoreOrder { scores: scores.as_slice() };
    let order = sort_positions(n, &by);
    let mut r: Vec<usize> = Vec::new();
    let mut p: usize = 0;
    proof {
        order::lemma_sorted_order_range(order@, n as nat, by);
    }
    while p < order.len()
        invariant
            p <= order@.len(),
            n == commands@.len(),
            n == scores@.len(),
            by.scores@ == scores@,
            order::is_sorted_order(order@, n as nat, by),
            order@.len() == n,
            forall|q: int| 0 <= q < order@.len() ==> #[trigger] order@[q] < n,
            forall|k: int|
                0 <= k < n ==> scored(needle@, (#[trigger] commands@[k]).label@, scores@[k]),
            r@.len() == p || (p < order@.len() && scores@[order@[p as int] as int] is None),
            r@.len() <= p,
            r@ == order@.take(r@.len() as int),
            forall|q: int| 0 <= q < r@.len() ==> scores@[#[trigger] order@[q] as int] is Some,
            forall|q: int| r@.len() <= q < p ==> scores@[#[trigger] order@[q] as int] is None,
        decreases order@.len() - p,
    {
        let k: usize = order[p];
        match scores[k] {
            Some(_) => {
                r.push(k);
                assert(r@ =~= order@.take(r@.len() as int));
            },
            None => {
                proof {
                    assert forall|q: int| p <= q < order@.len() implies scores@[#[trigger] order@[q] as int] is None by {
                        if q > p {
                            assert(by.before(order@[p as int], order@[q]));
                        }
                    }
                    lemma_ranking(needle@, commands@, scores@, order@, r@.len() as int, by);
                }
                return r;
            },
        }
        p = p + 1;
    }
    proof {
        lemma_ranking(needle@, commands@, scores@, order@, r@.len() as int, by);
    }
    r
}

/// Whether a computed score is that of a label.
pub open spec fn scored(needle: Seq<char>, label: Seq<char>, s: Option<i32>) -> bool {
    match s {
        Some(v) => score(needle, label) == Some(v as int),
        None => score(needle, label) is None,
    }
}

proof fn lemma_ranking(
    needle: Seq<char>,
    commands: Seq<PaletteCommand>,
    scores: Seq<Option<i32>>,
    sorted: Seq<usize>,
    m: int,
    by: ScoreOrder,
)
    requires
        commands.len() == scores.len(),
        by.scores@ == scores,
        order::is_sorted_order(sorted, commands.len(), by),
        sorted.len() == commands.len(),
        forall|q: int| 0 <= q < sorted.len() ==> #[trigger] sorted[q] < commands.len(),
        forall|k: int|
            0 <= k < commands.len() ==> scored(needle, (#[trigger] commands[k]).label@, scores[k]),
        0 <= m <= sorted.len(),
        forall|q: int| 0 <= q < m ==> scores[#[trigger] sorted[q] as int] is Some,
        forall|q: int| m <= q < sorted.len() ==> scores[#[trigger] sorted[q] as int] is None,
        commands.len() <= usize::MAX,
    ensures
        is_ranking(needle, rows_of(commands), sorted.take(m)),
{
    let r = sorted.take(m);
    let rows = rows_of(commands);
    assert forall|p: int| 0 <= p < r.len() implies #[trigger] r[p] < rows.len() && score(
        needle,
        rows[r[p] as int].label,
    ) is Some by {
        assert(r[p] == sorted[p]);
        assert(scored(needle, commands[r[p] as int].label@, scores[r[p] as int]));
    }
    assert forall|k: int|
        0 <= k < rows.len() && score(needle, (#[trigger] rows[k]).label) is Some implies r.contains(
        k as usize,
    ) by {
        order::lemma_sorted_order_covers(sorted, commands.len(), by, k as usize);
        let q = choose|q: int| 0 <= q < sorted.len() && sorted[q] == k as usize;
        assert(scored(needle, commands[k].label@, scores[k]));
        assert(q < m);
        assert(r[q] == k as usize);
    }
    assert forall|p: int, q: int| #![trigger r[p], r[q]] 0 <= p < q < r.len() implies {
        let x = score(needle, rows[r[p] as int].label).unwrap();
        let y = score(needle, rows[r[q] as int].label).unwrap();
        x > y || x == y && r[p] < r[q]
    } by {
        assert(by.before(sorted[p], sorted[q]));
        assert(scored(needle, commands[r[p] as int].label@, scores[r[p] as int]));
        assert(scored(needle, commands[r[q] as int].label@, scores[r[q] as int]));
    }
}

/// No command of the palette has a label near the limit.
pub proof fn lemma_labels_are_short(i: int)
    requires
        0 <= i < command_table().len(),
    ensures
        15 * command_table()[i].label.len() <= i32::MAX,
{
    reveal_strlit("move down");
    reveal_strlit("move up");
    reveal_strlit("jump to the top");
    reveal_strlit("jump to the bottom");
    reveal_strlit("toggle the apparent-size column");
    reveal_strlit("clear all marks");
    reveal_strlit("show this cheatsheet");
    reveal_strlit("toggle zen mode (table only: no cards, gauge or wheel)");
    reveal_strlit("flat top files across the whole scan (t again returns to tree)");
    reveal_strlit("pattern breakdown (b again returns to tree)");
    reveal_strlit("review marked entries");
    reveal_strlit("delete marked entries");
    reveal_strlit("freeable files panel");
    reveal_strlit("clear active filter");
    reveal_strlit("quit");
}

/// Two rankings of the same commands are the same.
pub proof fn law_ranking_unique(
    needle: Seq<char>,
    commands: Seq<CommandRow>,
    a: Seq<usize>,
    b: Seq<usize>,
)
    requires
        is_ranking(needle, commands, a),
        is_ranking(needle, commands, b),
    ensures
        a == b,
{
    assert forall|i: int| 0 <= i < a.len() && i < b.len() implies #[trigger] a[i] == b[i] by {
        lemma_ranking_place(needle, commands, a, b, i);
    }
    lemma_ranking_length(needle, commands, a, b);
    lemma_ranking_length(needle, commands, b, a);
    assert(a =~= b);
}

proof fn lemma_ranking_place(
    needle: Seq<char>,
    commands: Seq<CommandRow>,
    a: Seq<usize>,
    b: Seq<usize>,
    i: int,
)
    requires
        is_ranking(needle, commands, a),
        is_ranking(needle, commands, b),
        0 <= i < a.len(),
        i < b.len(),
    ensures
        a[i] == b[i],
    decreases i,
{
    assert forall|k: int| 0 <= k < i implies #[trigger] a[k] == b[k] by {
        lemma_ranking_place(needle, commands, a, b, k);
    }
    assert(score(needle, commands[a[i] as int].label) is Some);
    assert(score(needle, commands[b[i] as int].label) is Some);
    assert(b.contains(a[i] as int as usize));
    assert(a.contains(b[i] as int as usize));
    let j = choose|j: int| 0 <= j < b.len() && b[j] == a[i];
    let k = choose|k: int| 0 <= k < a.len() && a[k] == b[i];
    if j < i {
        assert(a[j] == b[j]);
    } else if k < i {
        assert(a[k] == b[k]);
    } else if j > i && k > i {
        assert(score(needle, commands[b[i] as int].label).unwrap() >= score(
            needle,
            commands[b[j] as int].label,
        ).unwrap());
        assert(score(needle, commands[a[i] as int].label).unwrap() >= score(
            needle,
            commands[a[k] as int].label,
        ).unwrap());
    }
}

proof fn lemma_ranking_length(
    needle: Seq<char>,
    commands: Seq<CommandRow>,
    a: Seq<usize>,
    b: Seq<usize>,
)
    requires
        is_ranking(needle, commands, a),
        is_ranking(needle, commands, b),
        forall|i: int| 0 <= i < a.len() && i < b.len() ==> #[trigger] a[i] == b[i],
    ensures
        b.len() <= a.len(),
{
    if a.len() < b.len() {
        let x = b[a.len() as int];
        assert(score(needle, commands[x as int].label) is Some);
        assert(a.contains(x as int as usize));
        let k = choose|k: int| 0 <= k < a.len() && a[k] == x;
        assert(b[k] == a[k]);
    }
}

/// The palette's live state as values.
#[verifier::ext_equal]
pub struct PaletteView {
    pub buffer: Seq<char>,
    pub cursor: nat,
    pub list_selected: nat,
    pub history_cursor: Option<nat>,
    pub draft: Option<Seq<char>>,
}

/// The palette's live state: the text buffer, the cursor in it, the selection
/// in the list that is showing, and the walk through the history.
#[derive(Debug)]
pub struct PaletteState {
    pub buffer: Vec<char>,
    pub cursor: usize,
    pub list_selected: usize,
    /// The history entry in the buffer, absent for fresh text.
    pub history_cursor: Option<usize>,
    /// The text that the walk into history set aside.
    pub draft: Option<String>,
}

/// What can be done to a palette.
pub enum PaletteOp {
    Insert(char),
    Backspace,
    DeleteForward,
    Left,
    Right,
    Home,
    End,
    SetText(Seq<char>),
    /// In a list of this length.
    SelectDown(nat),
    SelectUp,
    HistoryUp,
    HistoryDown,
}

impl PaletteOp {
    /// Whether only the cursor moves.
    pub open spec fn is_move(self) -> bool {
        self is Left || self is Right || self is Home || self is End
    }
}

impl PaletteView {
    /// Whether the cursor stands in the buffer.
    pub open spec fn wf(self) -> bool {
        self.cursor <= self.buffer.len()
    }

    /// A palette opened with a text.
    pub open spec fn opened(text: Seq<char>) -> PaletteView {
        PaletteView {
            buffer: text,
            cursor: text.len(),
            list_selected: 0,
            history_cursor: None,
            draft: None,
        }
    }

    /// With another text, the cursor at its end and the selection reset.
    pub open spec fn loaded(self, text: Seq<char>) -> PaletteView {
        PaletteView { buffer: text, cursor: text.len(), list_selected: 0, ..self }
    }

    /// Away from the history, with the selection reset.
    pub open spec fn detached(self) -> PaletteView {
        PaletteView { history_cursor: None, draft: None, list_selected: 0, ..self }
    }

    /// With a character inserted at the cursor.
    pub open spec fn inserted(self, c: char) -> PaletteView {
        PaletteView {
            buffer: self.buffer.insert(self.cursor as int, c),
            cursor: self.cursor + 1,
            ..self.detached()
        }
    }

    /// Without the character before the cursor.
    pub open spec fn backspaced(self) -> PaletteView {
        if self.cursor > 0 {
            PaletteView {
                buffer: self.buffer.remove(self.cursor - 1),
                cursor: (self.cursor - 1) as nat,
                ..self.detached()
            }
        } else {
            self
        }
    }

    /// Without the character after the cursor.
    pub open spec fn deleted(self) -> PaletteView {
        if self.cursor < self.buffer.len() {
            PaletteView { buffer: self.buffer.remove(self.cursor as int), ..self.detached() }
        } else {
            self
        }
    }

    /// With the cursor one character left.
    pub open spec fn moved_left(self) -> PaletteView {
        PaletteView {
            cursor: if self.cursor > 0 {
                (self.cursor - 1) as nat
            } else {
                0
            },
            ..self
        }
    }

    /// With the cursor one character right.
    pub open spec fn moved_right(self) -> PaletteView {
        PaletteView {
            cursor: if self.cursor < self.buffer.len() {
                self.cursor + 1
            } else {
                self.cursor
            },
            ..self
        }
    }

    /// With the cursor at the start.
    pub open spec fn moved_home(self) -> PaletteView {
        PaletteView { cursor: 0, ..self }
    }

    /// With the cursor at the end.
    pub open spec fn moved_end(self) -> PaletteView {
        PaletteView { cursor: self.buffer.len(), ..self }
    }

    /// With the next entry of a list of `len` selected, if there is one.
    pub open spec fn selected_down(self, len: nat) -> PaletteView {
        PaletteView {
            list_selected: if self.list_selected + 1 < len {
                self.list_selected + 1
            } else {
                self.list_selected
            },
            ..self
        }
    }

    /// With the entry before selected, if there is one.
    pub open spec fn selected_up(self) -> PaletteView {
        PaletteView {
            list_selected: if self.list_selected > 0 {
                (self.list_selected - 1) as nat
            } else {
                0
            },
            ..self
        }
    }

    /// After one operation.
    pub open spec fn after(self, op: PaletteOp, history: Seq<String>) -> PaletteView {
        match op {
            PaletteOp::Insert(c) => self.inserted(c),
            PaletteOp::Backspace => self.backspaced(),
            PaletteOp::DeleteForward => self.deleted(),
            PaletteOp::Left => self.moved_left(),
            PaletteOp::Right => self.moved_right(),
            PaletteOp::Home => self.moved_home(),
            PaletteOp::End => self.moved_end(),
            PaletteOp::SetText(text) => self.loaded(text),
            PaletteOp::SelectDown(len) => self.selected_down(len),
            PaletteOp::SelectUp => self.selected_up(),
            PaletteOp::HistoryUp => self.older(history),
            PaletteOp::HistoryDown => self.newer(history),
        }
    }

    /// After some operations, in order, over one history.
    pub open spec fn after_all(self, ops: Seq<PaletteOp>, history: Seq<String>) -> PaletteView
        decreases ops.len(),
    {
        if ops.len() == 0 {
            self
        } else {
            self.after_all(ops.drop_last(), history).after(ops.last(), history)
        }
    }

    /// One entry further into the past.
    pub open spec fn older(self, history: Seq<String>) -> PaletteView {
        if history.len() == 0 {
            self
        } else {
            let next = match self.history_cursor {
                None => (history.len() - 1) as nat,
                Some(i) => if i == 0 {
                    0
                } else {
                    (i - 1) as nat
                },
            };
            PaletteView {
                history_cursor: Some(next),
                draft: if self.history_cursor is None {
                    Some(self.buffer)
                } else {
                    self.draft
                },
                ..self.loaded(history[next as int]@)
            }
        }
    }

    /// One entry back toward the present; past the newest one, the text that was
    /// set aside.
    pub open spec fn newer(self, history: Seq<String>) -> PaletteView {
        match self.history_cursor {
            None => self,
            Some(i) => if i + 1 < history.len() {
                PaletteView {
                    history_cursor: Some(i + 1),
                    ..self.loaded(history[(i + 1) as int]@)
                }
            } else {
                PaletteView {
                    history_cursor: None,
                    draft: None,
                    ..self.loaded(
                        match self.draft {
                            Some(d) => d,
                            None => Seq::empty(),
                        },
                    )
                }
            },
        }
    }
}

impl View for PaletteState {
    type V = PaletteView;

    open spec fn view(&self) -> PaletteView {
        PaletteView {
            buffer: self.buffer@,
            cursor: self.cursor as nat,
            list_selected: self.list_selected as nat,
            history_cursor: match self.history_cursor {
                Some(i) => Some(i as nat),
                None => None,
            },
            draft: match self.draft {
                Some(d) => Some(d@),
                None => None,
            },
        }
    }
}

impl PaletteState {
    /// Opens with an empty buffer.
    pub fn new() -> (p: PaletteState)
        ensures
            p@ == PaletteView::opened(Seq::empty()),
            p@.wf(),
    {
        let p = PaletteState {
            buffer: Vec::new(),
            cursor: 0,
            list_selected: 0,
            history_cursor: None,
            draft: None,
        };
        assert(p@ =~= PaletteView::opened(Seq::empty()));
        p
    }

    /// Opens pre-filled, the cursor at the end.
    pub fn with_text(text: &str) -> (p: PaletteState)
        ensures
            p@ == PaletteView::opened(text@),
            p@.wf(),
    {
        let buffer = chars_of(text);
        let cursor: usize = buffer.len();
        PaletteState { buffer, cursor, list_selected: 0, history_cursor: None, draft: None }
    }

    /// Which half shows: a leading `>` starts command mode.
    pub fn mode(&self) -> (m: PaletteMode)
        ensures
            m == (if self@.buffer.len() > 0 && self@.buffer[0] == '>' {
                PaletteMode::Command
            } else {
                PaletteMode::Query
            }),
    {
        if self.buffer.len() > 0 && self.buffer[0] == '>' {
            PaletteMode::Command
        } else {
            PaletteMode::Query
        }
    }

    /// The whole buffer.
    pub fn text(&self) -> (s: String)
        ensures
            s@ == self@.buffer,
    {
        string_of(self.buffer.as_slice())
    }

    /// The buffer after the sigil of command mode, if it has one.
    pub fn content(&self) -> (s: String)
        ensures
            s@ == (if self@.buffer.len() > 0 && self@.buffer[0] == '>' {
                self@.buffer.skip(1)
            } else {
                self@.buffer
            }),
    {
        match self.mode() {
            PaletteMode::Query => self.text(),
            PaletteMode::Command => {
                let rest = sub_chars(self.buffer.as_slice(), 1, self.buffer.len());
                assert(rest@ =~= self@.buffer.skip(1));
                string_of(rest.as_slice())
            },
        }
    }

    /// The cursor, in characters.
    pub fn cursor(&self) -> (r: usize)
        ensures
            r == self@.cursor,
    {
        self.cursor
    }

    fn detach_from_history(&mut self)
        ensures
            final(self)@ == old(self)@.detached(),
            final(self).buffer == old(self).buffer,
            final(self).cursor == old(self).cursor,
    {
        self.history_cursor = None;
        self.draft = None;
        self.list_selected = 0;
    }

    /// Inserts a character at the cursor.
    pub fn insert_char(&mut self, c: char)
        requires
            old(self)@.wf(),
        ensures
            final(self)@ == old(self)@.inserted(c),
            final(self)@.wf(),
    {
        self.buffer.insert(self.cursor, c);
        assert(self.buffer.len() == self.buffer@.len());
        self.cursor = self.cursor + 1;
        self.detach_from_history();
    }

    /// Removes the character before the cursor.
    pub fn backspace(&mut self)
        requires
            old(self)@.wf(),
        ensures
            final(self)@ == old(self)@.backspaced(),
            final(self)@.wf(),
    {
        if self.cursor > 0 {
            self.cursor = self.cursor - 1;
            self.buffer.remove(self.cursor);
            self.detach_from_history();
        }
    }

    /// Removes the character after the cursor.
    pub fn delete_forward(&mut self)
        requires
            old(self)@.wf(),
        ensures
            final(self)@ == old(self)@.deleted(),
            final(self)@.wf(),
    {
        if self.cursor < self.buffer.len() {
            self.buffer.remove(self.cursor);
            self.detach_from_history();
        }
    }

    /// Moves the cursor one character left.
    pub fn move_left(&mut self)
        requires
            old(self)@.wf(),
        ensures
            final(self)@ == old(self)@.moved_left(),
            final(self)@.wf(),
    {
        if self.cursor > 0 {
            self.cursor = self.cursor - 1;
        }
    }

    /// Moves the cursor one character right.
    pub fn move_right(&mut self)
        requires
            old(self)@.wf(),
        ensures
            final(self)@ == old(self)@.moved_right(),
            final(self)@.wf(),
    {
        if self.cursor < self.buffer.len() {
            self.cursor = self.cursor + 1;
        }
    }

    /// Moves the cursor to the start.
    pub fn move_home(&mut self)
        ensures
            final(self)@ == old(self)@.moved_home(),
            final(self)@.wf(),
    {
        self.cursor = 0;
    }

    /// Moves the cursor to the end.
    pub fn move_end(&mut self)
        ensures
            final(self)@ == old(self)@.moved_end(),
            final(self)@.wf(),
    {
        self.cursor = self.buffer.len();
    }

    /// Replaces the whole buffer, the cursor at the end and the selection reset.
    pub fn set_text(&mut self, text: &str)
        ensures
            final(self)@ == old(self)@.loaded(text@),
            final(self)@.wf(),
            final(self).history_cursor == old(self).history_cursor,
            final(self).draft == old(self).draft,
    {
        self.buffer = chars_of(text);
        self.cursor = self.buffer.len();
        self.list_selected = 0;
    }

    /// The selected entry of the list that is showing.
    pub fn list_selected(&self) -> (r: usize)
        ensures
            r == self@.list_selected,
    {
        self.list_selected
    }

    /// Selects the next entry of a list of `len`, if there is one.
    pub fn move_selection_down(&mut self, len: usize)
        ensures
            final(self)@ == old(self)@.selected_down(len as nat),
    {
        if len > 0 && self.list_selected < len - 1 {
            self.list_selected = self.list_selected + 1;
        }
    }

    /// Selects the entry before, if there is one.
    pub fn move_selection_up(&mut self)
        ensures
            final(self)@ == old(self)@.selected_up(),
    {
        if self.list_selected > 0 {
            self.list_selected = self.list_selected - 1;
        }
    }

    /// Walks one entry further into the past of `history`, whose newest entry
    /// comes last; the first step sets the text aside.
    pub fn history_up(&mut self, history: &[String])
        requires
            old(self)@.wf(),
            history@.len() == 0 || (old(self)@.history_cursor matches Some(i) ==> i
                <= history@.len()),
        ensures
            final(self)@ == old(self)@.older(history@),
            final(self)@.wf(),
    {
        if history.len() == 0 {
            return;
        }
        let next: usize = match self.history_cursor {
            None => {
                self.draft = Some(self.text());
                history.len() - 1
            },
            Some(i) => if i == 0 {
                0
            } else {
                i - 1
            },
        };
        self.history_cursor = Some(next);
        self.set_text(history[next].as_str());
    }

    /// Walks one entry back toward the present; past the newest entry, restores
    /// the text that was set aside.
    pub fn history_down(&mut self, history: &[String])
        requires
            old(self)@.wf(),
        ensures
            final(self)@ == old(self)@.newer(history@),
            final(self)@.wf(),
    {
        if let Some(i) = self.history_cursor {
            if history.len() > 0 && i < history.len() - 1 {
                self.history_cursor = Some(i + 1);
                self.set_text(history[i + 1].as_str());
            } else {
                let draft = match self.draft.take() {
                    Some(d) => d,
                    None => String::new(),
                };
                self.set_text(draft.as_str());
                self.history_cursor = None;
            }
        }
    }
}

impl Default for PaletteState {
    fn default() -> (p: PaletteState)
        ensures
            p@ == PaletteView::opened(Seq::empty()),
    {
        PaletteState::new()
    }
}

/// A number of steps into the past.
pub open spec fn olders(p: PaletteView, history: Seq<String>, n: nat) -> PaletteView
    decreases n,
{
    if n == 0 {
        p
    } else {
        olders(p, history, (n - 1) as nat).older(history)
    }
}

/// A number of steps toward the present.
pub open spec fn newers(p: PaletteView, history: Seq<String>, n: nat) -> PaletteView
    decreases n,
{
    if n == 0 {
        p
    } else {
        newers(p, history, (n - 1) as nat).newer(history)
    }
}

proof fn lemma_olders(p: PaletteView, history: Seq<String>, n: nat)
    requires
        p.history_cursor is None,
        0 < n <= history.len(),
    ensures
        olders(p, history, n).history_cursor == Some((history.len() - n) as nat),
        olders(p, history, n).draft == Some(p.buffer),
        olders(p, history, n).buffer == history[history.len() - n]@,
    decreases n,
{
    if n > 1 {
        lemma_olders(p, history, (n - 1) as nat);
    } else {
        assert(olders(p, history, 0) == p);
    }
}

proof fn lemma_newers(q: PaletteView, history: Seq<String>, n: nat)
    requires
        q.history_cursor matches Some(i) && i + n < history.len(),
    ensures
        newers(q, history, n).history_cursor == Some(q.history_cursor.unwrap() + n),
        newers(q, history, n).draft == q.draft,
    decreases n,
{
    if n > 0 {
        lemma_newers(q, history, (n - 1) as nat);
    }
}

/// Walking into the history and as many steps back restores the text that was
/// being typed, and the walk is over.
pub proof fn law_history_restores_the_draft(p: PaletteView, history: Seq<String>, n: nat)
    requires
        p.history_cursor is None,
        n <= history.len(),
    ensures
        newers(olders(p, history, n), history, n).buffer == p.buffer,
        newers(olders(p, history, n), history, n).history_cursor is None,
{
    if n > 0 {
        let q = olders(p, history, n);
        lemma_olders(p, history, n);
        lemma_newers(q, history, (n - 1) as nat);
    }
}

/// Steps past the oldest entry stay on it.
pub proof fn law_history_stops_at_the_oldest(p: PaletteView, history: Seq<String>)
    requires
        p.history_cursor == Some(0nat),
        history.len() > 0,
    ensures
        p.older(history).history_cursor == Some(0nat),
        p.older(history).buffer == history[0]@,
        p.older(history).draft == p.draft,
{
}

/// An edit detaches from the history: the next step into the past starts at the
/// newest entry again.
pub proof fn law_editing_detaches(p: PaletteView, history: Seq<String>, c: char)
    requires
        p.wf(),
        history.len() > 0,
    ensures
        p.inserted(c).older(history).buffer == history.last()@,
        p.cursor > 0 ==> p.backspaced().older(history).buffer == history.last()@,
        p.cursor < p.buffer.len() ==> p.deleted().older(history).buffer == history.last()@,
        p.inserted(c).older(history).draft == Some(p.buffer.insert(p.cursor as int, c)),
{
}

/// Taking back a typed character restores the buffer and the cursor, and at the
/// start there is nothing to take back: the palette stays as it is.
pub proof fn law_backspace_undoes_typing(p: PaletteView, c: char)
    requires
        p.wf(),
    ensures
        p.cursor == 0 ==> p.backspaced() == p,
        p.inserted(c).backspaced().buffer == p.buffer,
        p.inserted(c).backspaced().cursor == p.cursor,
{
    assert(p.buffer.insert(p.cursor as int, c).remove(p.cursor as int) =~= p.buffer);
}

/// However a palette is used, its cursor is a character index into its text, and
/// a walk through the history stands on one of its entries. Moves never change
/// the text.
pub proof fn law_cursor_stays_in_the_text(
    text: Seq<char>,
    ops: Seq<PaletteOp>,
    history: Seq<String>,
)
    ensures
        ({
            let p = PaletteView::opened(text).after_all(ops, history);
            &&& p.cursor <= p.buffer.len()
            &&& p.history_cursor matches Some(i) ==> i < history.len()
        }),
        ops.len() > 0 && ops.last().is_move() ==> PaletteView::opened(text).after_all(
            ops,
            history,
        ).buffer == PaletteView::opened(text).after_all(ops.drop_last(), history).buffer,
    decreases ops.len(),
{
    if ops.len() > 0 {
        law_cursor_stays_in_the_text(text, ops.drop_last(), history);
    }
}

/// Every key of the table is a command too, under what the cheatsheet says of it and with
/// the keys it lists, and does the same.
pub proof fn law_commands_are_the_keys(i: int)
    requires
        0 <= i < keymap::simple_table().len(),
    ensures
        command_table()[i].label == keymap::simple_table()[i].action,
        command_table()[i].hint == keymap::simple_table()[i].keys,
        command_table()[i].action == CommandAction::Simple(keymap::simple_table()[i].apply),
        command_table().len() == keymap::simple_table().len() + 5,
{
}

/// The other commands do what their labels say, and each is there.
pub proof fn law_panel_commands_do_what_they_say(i: int)
    requires
        0 <= i < panel_commands().len(),
    ensures
        ({
            let row = panel_commands()[i];
            &&& row.label == "review marked entries"@ ==> row.action is ReviewMarks && row.hint
                == "v"@
            &&& row.label == "delete marked entries"@ ==> row.action is DeleteMarked && row.hint
                == "D"@
            &&& row.label == "freeable files panel"@ ==> row.action is FreeablePanel && row.hint
                == "f"@
            &&& row.label == "clear active filter"@ ==> row.action is ClearFilter && row.hint
                == "Esc"@
            &&& row.label == "quit"@ ==> row.action is Quit && row.hint == "q"@
            &&& row.label == "review marked entries"@ || row.label == "delete marked entries"@
                || row.label == "freeable files panel"@ || row.label == "clear active filter"@
                || row.label == "quit"@
        }),
{
    reveal_strlit("review marked entries");
    reveal_strlit("delete marked entries");
    reveal_strlit("freeable files panel");
    reveal_strlit("clear active filter");
    reveal_strlit("quit");
    assert("review marked entries"@[0] == 'r');
    assert("delete marked entries"@[0] == 'd');
    assert("freeable files panel"@[0] == 'f');
    assert("clear active filter"@[0] == 'c');
    assert("quit"@[0] == 'q');
}

/// A search finds the next place of a character: what lies before it is something else.
pub proof fn law_search_finds_the_next(hay: Seq<char>, from: int, c: char)
    requires
        0 <= from,
    ensures
        first_from(hay, from, c) matches Some(at) ==> from <= at < hay.len() && hay[at] == c
            && forall|i: int| from <= i < at ==> #[trigger] hay[i] != c,
        first_from(hay, from, c) is None <==> forall|i: int|
            from <= i < hay.len() ==> #[trigger] hay[i] != c,
    decreases hay.len() - from,
{
    if from < hay.len() && hay[from] != c {
        law_search_finds_the_next(hay, from + 1, c);
    }
}

/// An empty needle matches everything, with nothing to its credit; capital letters never
/// matter; and a needle that is not a subsequence matches nothing.
pub proof fn law_matching_ignores_case(needle: Seq<char>, hay: Seq<char>)
    ensures
        score(Seq::empty(), hay) == Some(0int),
        score(text::lowered(needle), hay) == score(needle, hay),
        score(needle, text::lowered(hay)) == score(needle, hay),
        needle.len() > hay.len() ==> score(needle, hay) is None,
{
    text::law_lowering(needle);
    text::law_lowering(hay);
    lemma_matched_bound(text::lowered(needle), text::lowered(hay), needle.len());
}

proof fn lemma_matched_bound(needle: Seq<char>, hay: Seq<char>, n: nat)
    requires
        n <= needle.len(),
    ensures
        matched(needle, hay, n) matches Some((last, s)) ==> n <= last + 1 <= hay.len() && s >= 10 * n,
    decreases n,
{
    if n > 0 {
        lemma_matched_bound(needle, hay, (n - 1) as nat);
        match matched(needle, hay, (n - 1) as nat) {
            None => {},
            Some((last, s)) => {
                law_search_finds_the_next(hay, last + 1, needle[n - 1]);
            },
        }
    }
}

/// Every matched character counts ten; one right behind the one before counts five more,
/// and one at the very start three more.
pub proof fn law_score_of_one_more(needle: Seq<char>, hay: Seq<char>, n: nat)
    requires
        0 < n <= needle.len(),
    ensures
        matched(needle, hay, n) matches Some((at, s)) ==> {
            &&& matched(needle, hay, (n - 1) as nat) matches Some((last, before))
            &&& last < at
            &&& hay[at] == needle[n - 1]
            &&& s - before == 10 + (if n > 1 && at == last + 1 {
                5int
            } else {
                0
            }) + (if at == 0 {
                3int
            } else {
                0
            })
        },
{
    match matched(needle, hay, (n - 1) as nat) {
        None => {},
        Some((last, s)) => {
            lemma_matched_bound(needle, hay, (n - 1) as nat);
            law_search_finds_the_next(hay, last + 1, needle[n - 1]);
        },
    }
}

/// The best match comes first, and commands that match alike keep their order; a command
/// is listed exactly if it matches.
pub proof fn law_better_matches_come_first(
    needle: Seq<char>,
    commands: Seq<CommandRow>,
    r: Seq<usize>,
    p: int,
    q: int,
    k: usize,
)
    requires
        is_ranking(needle, commands, r),
        0 <= p < q < r.len(),
        k < commands.len(),
    ensures
        score(needle, commands[r[p] as int].label).unwrap() >= score(
            needle,
            commands[r[q] as int].label,
        ).unwrap(),
        score(needle, commands[r[p] as int].label) == score(needle, commands[r[q] as int].label)
            ==> r[p] < r[q],
        r.contains(k) <==> score(needle, commands[k as int].label) is Some,
{
    if r.contains(k) {
        let i = choose|i: int| 0 <= i < r.len() && r[i] == k;
        assert(r[i] < commands.len());
    }
}

/// Typing puts a character in at the cursor and nowhere else; deleting takes out the one
/// under it, and takes back what typing put in once the cursor is before it.
pub proof fn law_typing_happens_at_the_cursor(p: PaletteView, c: char)
    requires
        p.wf(),
    ensures
        p.inserted(c).buffer.len() == p.buffer.len() + 1,
        p.inserted(c).buffer[p.cursor as int] == c,
        p.inserted(c).buffer.take(p.cursor as int) == p.buffer.take(p.cursor as int),
        p.inserted(c).buffer.skip(p.cursor as int + 1) == p.buffer.skip(p.cursor as int),
        p.inserted(c).cursor == p.cursor + 1,
        p.inserted(c).moved_left().deleted().buffer == p.buffer,
        p.inserted(c).moved_left().deleted().cursor == p.cursor,
        p.cursor < p.buffer.len() ==> p.deleted().buffer.len() + 1 == p.buffer.len()
            && p.deleted().cursor == p.cursor,
        p.cursor == p.buffer.len() ==> p.deleted() == p,
{
    assert(p.inserted(c).buffer.take(p.cursor as int) =~= p.buffer.take(p.cursor as int));
    assert(p.inserted(c).buffer.skip(p.cursor as int + 1) =~= p.buffer.skip(p.cursor as int));
    assert(p.inserted(c).moved_left().deleted().buffer =~= p.buffer);
}

/// Moves go one character at a time and stop at the ends; left and right undo each other.
pub proof fn law_moves_go_character_by_character(p: PaletteView)
    requires
        p.wf(),
    ensures
        p.cursor > 0 ==> p.moved_left().cursor == p.cursor - 1 && p.moved_left().moved_right() == p,
        p.cursor == 0 ==> p.moved_left() == p,
        p.cursor < p.buffer.len() ==> p.moved_right().cursor == p.cursor + 1
            && p.moved_right().moved_left() == p,
        p.cursor == p.buffer.len() ==> p.moved_right() == p,
        p.moved_home().cursor == 0 && p.moved_home().buffer == p.buffer,
        p.moved_end().cursor == p.buffer.len() && p.moved_end().buffer == p.buffer,
{
}

/// The selection stays in the list, one row at a time, and an edit starts it over.
pub proof fn law_selection_stays_in_the_list(p: PaletteView, len: nat, c: char)
    requires
        p.list_selected < len,
    ensures
        p.selected_down(len).list_selected < len,
        p.list_selected + 1 < len ==> p.selected_down(len).list_selected == p.list_selected + 1,
        p.list_selected + 1 == len ==> p.selected_down(len) == p,
        p.list_selected > 0 ==> p.selected_up().list_selected == p.list_selected - 1,
        p.list_selected == 0 ==> p.selected_up() == p,
        p.inserted(c).list_selected == 0,
{
}

/// A step into the past shows the entry before the one that is shown, the newest one
/// first, with the cursor behind it; a step back shows the entry after it.
pub proof fn law_history_is_walked_entry_by_entry(p: PaletteView, history: Seq<String>, i: nat)
    requires
        history.len() > 0,
        i < history.len(),
    ensures
        p.history_cursor is None ==> p.older(history).buffer == history.last()@ && p.older(
            history,
        ).draft == Some(p.buffer),
        p.history_cursor == Some(i) && i > 0 ==> p.older(history).buffer == history[i - 1]@
            && p.older(history).history_cursor == Some((i - 1) as nat),
        p.history_cursor == Some(i) && i + 1 < history.len() ==> p.newer(history).buffer
            == history[i as int + 1]@ && p.newer(history).history_cursor == Some(i + 1),
        p.older(history).cursor == p.older(history).buffer.len(),
        p.history_cursor is None ==> p.newer(history) == p,
{
}

/// A palette opens with its text, the cursor behind it and the first row selected.
pub proof fn law_palette_opens_with_its_text(text: Seq<char>)
    ensures
        PaletteView::opened(text).buffer == text,
        PaletteView::opened(text).cursor == text.len(),
        PaletteView::opened(text).list_selected == 0,
        PaletteView::opened(text).history_cursor is None,
        PaletteView::opened(text).draft is None,
{
}

} // verus!
