//! The history of queries: one per line, the oldest first, a bounded number of
//! them.

use crate::text;
use crate::text::{chars_of, same_text, string_of};
use crate::paths;
use crate::paths::find_user_file;
use vstd::prelude::*;
use vstd::string::*;

verus! {

/// Bound on stored entries.
pub const MAX_ENTRIES: usize = 200;

/// Whether a character is white space, by the Unicode property.
pub open spec fn is_space(c: char) -> bool {
    ||| '\u{9}' <= c <= '\u{d}'
    ||| c == '\u{20}'
    ||| c == '\u{85}'
    ||| c == '\u{a0}'
    ||| c == '\u{1680}'
    ||| '\u{2000}' <= c <= '\u{200a}'
    ||| c == '\u{2028}'
    ||| c == '\u{2029}'
    ||| c == '\u{202f}'
    ||| c == '\u{205f}'
    ||| c == '\u{3000}'
}

/// Tests whether a character is white space.
pub fn is_white(c: char) -> (r: bool)
    ensures
        r == is_space(c),
{
    ('\u{9}' <= c && c <= '\u{d}') || c == '\u{20}' || c == '\u{85}' || c == '\u{a0}' || c
        == '\u{1680}' || ('\u{2000}' <= c && c <= '\u{200a}') || c == '\u{2028}' || c == '\u{2029}'
        || c == '\u{202f}' || c == '\u{205f}' || c == '\u{3000}'
}

/// A text without leading white space.
pub open spec fn trimmed_start(s: Seq<char>) -> Seq<char>
    decreases s.len(),
{
    if s.len() > 0 && is_space(s[0]) {
        trimmed_start(s.drop_first())
    } else {
        s
    }
}

/// A text without trailing white space.
pub open spec fn trimmed_end(s: Seq<char>) -> Seq<char>
    decreases s.len(),
{
    if s.len() > 0 && is_space(s.last()) {
        trimmed_end(s.drop_last())
    } else {
        s
    }
}

/// A text without white space at its ends.
pub open spec fn trimmed(s: Seq<char>) -> Seq<char> {
    trimmed_end(trimmed_start(s))
}

/// Whether a text has something in it and no white space at its ends.
pub open spec fn is_trim(s: Seq<char>) -> bool {
    s.len() > 0 && !is_space(s[0]) && !is_space(s.last())
}

proof fn lemma_trim_keeps(s: Seq<char>)
    requires
        is_trim(s),
    ensures
        trimmed(s) == s,
{
}

proof fn lemma_trimmed_start(s: Seq<char>)
    ensures
        trimmed_start(s).len() > 0 ==> !is_space(trimmed_start(s)[0]),
        forall|c: char| trimmed_start(s).contains(c) ==> s.contains(c),
    decreases s.len(),
{
    if s.len() > 0 && is_space(s[0]) {
        let t = s.drop_first();
        lemma_trimmed_start(t);
        assert forall|c: char| trimmed_start(s).contains(c) implies s.contains(c) by {
            assert(t.contains(c));
            let i = choose|i: int| 0 <= i < t.len() && t[i] == c;
            assert(s[i + 1] == c);
        }
    }
}

proof fn lemma_trimmed_end(s: Seq<char>)
    ensures
        trimmed_end(s).len() > 0 ==> !is_space(trimmed_end(s).last()) && trimmed_end(s)[0] == s[0],
        forall|c: char| trimmed_end(s).contains(c) ==> s.contains(c),
    decreases s.len(),
{
    if s.len() > 0 && is_space(s.last()) {
        let t = s.drop_last();
        lemma_trimmed_end(t);
        assert forall|c: char| trimmed_end(s).contains(c) implies s.contains(c) by {
            assert(t.contains(c));
            let i = choose|i: int| 0 <= i < t.len() && t[i] == c;
            assert(s[i] == c);
        }
    }
}

proof fn lemma_trimmed_is_trim(s: Seq<char>)
    ensures
        trimmed(s).len() > 0 ==> is_trim(trimmed(s)),
        forall|c: char| trimmed(s).contains(c) ==> s.contains(c),
{
    lemma_trimmed_start(s);
    lemma_trimmed_end(trimmed_start(s));
}

/// Removes white space at the ends.
pub fn trim_chars(s: &[char]) -> (r: Vec<char>)
    ensures
        r@ == trimmed(s@),
{
    let n: usize = s.len();
    let mut a: usize = 0;
    assert(s@.skip(0) =~= s@);
    while a < n && is_white(s[a])
        invariant
            a <= n,
            n == s@.len(),
            trimmed_start(s@) == trimmed_start(s@.skip(a as int)),
        decreases n - a,
    {
        assert(s@.skip(a as int).drop_first() =~= s@.skip(a + 1));
        a = a + 1;
    }
    assert(trimmed_start(s@) == s@.skip(a as int));
    let mut b: usize = n;
    assert(s@.subrange(a as int, n as int) =~= s@.skip(a as int));
    while b > a && is_white(s[b - 1])
        invariant
            a <= b <= n,
            n == s@.len(),
            trimmed_end(s@.skip(a as int)) == trimmed_end(s@.subrange(a as int, b as int)),
        decreases b,
    {
        assert(s@.subrange(a as int, b as int).drop_last() =~= s@.subrange(a as int, b - 1));
        b = b - 1;
    }
    let mut r: Vec<char> = Vec::new();
    let mut i: usize = a;
    while i < b
        invariant
            a <= i <= b <= n,
            n == s@.len(),
            r@ == s@.subrange(a as int, i as int),
        decreases b - i,
    {
        r.push(s[i]);
        i = i + 1;
        assert(r@ =~= s@.subrange(a as int, i as int));
    }
    r
}

/// The lines of a text, the last one also where it is empty.
pub open spec fn split_lines(s: Seq<char>) -> Seq<Seq<char>>
    decreases s.len(),
{
    if s.len() == 0 {
        seq![Seq::empty()]
    } else {
        let before = split_lines(s.drop_last());
        if s.last() == '\n' {
            before.push(Seq::empty())
        } else {
            before.drop_last().push(before.last().push(s.last()))
        }
    }
}

/// The trimmed lines that have something in them.
pub open spec fn kept_lines(lines: Seq<Seq<char>>) -> Seq<Seq<char>>
    decreases lines.len(),
{
    if lines.len() == 0 {
        Seq::empty()
    } else {
        let before = kept_lines(lines.drop_last());
        if trimmed(lines.last()).len() > 0 {
            before.push(trimmed(lines.last()))
        } else {
            before
        }
    }
}

/// The newest entries, as many as the bound allows.
pub open spec fn bounded(entries: Seq<Seq<char>>) -> Seq<Seq<char>> {
    if entries.len() > MAX_ENTRIES {
        entries.skip(entries.len() - MAX_ENTRIES)
    } else {
        entries
    }
}

/// The entries that a history file holds.
pub open spec fn loaded(text: Seq<char>) -> Seq<Seq<char>> {
    bounded(kept_lines(split_lines(text)))
}

proof fn lemma_split_nonempty(s: Seq<char>)
    ensures
        split_lines(s).len() > 0,
    decreases s.len(),
{
    if s.len() > 0 {
        lemma_split_nonempty(s.drop_last());
    }
}

fn keep_line(out: &mut Vec<String>, line: &Vec<char>)
    ensures
        text::texts(final(out)@) == (if trimmed(line@).len() > 0 {
            text::texts(old(out)@).push(trimmed(line@))
        } else {
            text::texts(old(out)@)
        }),
{
    let t = trim_chars(line.as_slice());
    if t.len() > 0 {
        out.push(string_of(t.as_slice()));
        assert(text::texts(out@) =~= text::texts(old(out)@).push(t@));
    }
}

fn bound(entries: Vec<String>) -> (r: Vec<String>)
    ensures
        text::texts(r@) == bounded(text::texts(entries@)),
{
    let n: usize = entries.len();
    if n <= MAX_ENTRIES {
        return entries;
    }
    let mut all = entries;
    let r = all.split_off(n - MAX_ENTRIES);
    assert(text::texts(r@) =~= bounded(text::texts(entries@)));
    r
}

/// Reads the entries of a history file from its text.
pub fn load(text: &str) -> (r: Vec<String>)
    ensures
        text::texts(r@) == loaded(text@),
{
    let s = chars_of(text);
    let n: usize = s.len();
    let mut out: Vec<String> = Vec::new();
    let mut line: Vec<char> = Vec::new();
    let mut i: usize = 0;
    proof {
        assert(s@.take(0) =~= Seq::<char>::empty());
        assert(split_lines(s@.take(0)) =~= seq![Seq::<char>::empty()]);
        assert(split_lines(s@.take(0)).drop_last() =~= Seq::<Seq<char>>::empty());
        assert(text::texts(out@) =~= Seq::<Seq<char>>::empty());
    }
    while i < n
        invariant
            i <= n,
            n == s@.len(),
            text::texts(out@) == kept_lines(split_lines(s@.take(i as int)).drop_last()),
            line@ == split_lines(s@.take(i as int)).last(),
        decreases n - i,
    {
        let ghost lines = split_lines(s@.take(i as int));
        proof {
            lemma_split_nonempty(s@.take(i as int));
            assert(s@.take(i + 1).drop_last() =~= s@.take(i as int));
        }
        if s[i] == '\n' {
            keep_line(&mut out, &line);
            line = Vec::new();
            assert(split_lines(s@.take(i + 1)).drop_last() =~= lines);
        } else {
            line.push(s[i]);
            assert(split_lines(s@.take(i + 1)).drop_last() =~= lines.drop_last());
        }
        i = i + 1;
    }
    proof {
        lemma_split_nonempty(s@);
        assert(s@.take(n as int) =~= s@);
    }
    keep_line(&mut out, &line);
    bound(out)
}

/// The text of a history file with the given entries.
pub open spec fn written(entries: Seq<Seq<char>>) -> Seq<char>
    decreases entries.len(),
{
    if entries.len() == 0 {
        Seq::empty()
    } else {
        (written(entries.drop_last()) + entries.last()).push('\n')
    }
}

fn write(entries: &Vec<String>) -> (s: String)
    ensures
        s@ == written(text::texts(entries@)),
{
    let mut s = String::new();
    let mut i: usize = 0;
    assert(text::texts(entries@).take(0) =~= Seq::<Seq<char>>::empty());
    while i < entries.len()
        invariant
            i <= entries@.len(),
            s@ == written(text::texts(entries@).take(i as int)),
        decreases entries@.len() - i,
    {
        s.append(entries[i].as_str());
        s.push('\n');
        assert(text::texts(entries@).take(i + 1).drop_last() =~= text::texts(entries@).take(i as int));
        i = i + 1;
    }
    assert(text::texts(entries@).take(i as int) =~= text::texts(entries@));
    s
}

/// The entries after a query is recorded: it goes last, trimmed, unless it is
/// blank or repeats the last one; then nothing is to be written.
pub open spec fn recorded(entries: Seq<Seq<char>>, entry: Seq<char>) -> Option<Seq<Seq<char>>> {
    let e = trimmed(entry);
    if e.len() == 0 || (entries.len() > 0 && entries.last() == e) {
        None
    } else {
        Some(bounded(entries.push(e)))
    }
}

/// The new text of a history file after a query is recorded; nothing where the
/// file stays as it is.
pub fn append(text: &str, entry: &str) -> (r: Option<String>)
    ensures
        r is Some <==> recorded(loaded(text@), entry@) is Some,
        r matches Some(s) ==> s@ == written(recorded(loaded(text@), entry@)->0),
{
    let e = trim_chars(chars_of(entry).as_slice());
    if e.len() == 0 {
        return None;
    }
    let e = string_of(e.as_slice());
    let mut entries = load(text);
    if entries.len() > 0 {
        let last: usize = entries.len() - 1;
        assert(text::texts(entries@).last() == entries@[last as int]@);
        if same_text(entries[last].as_str(), e.as_str()) {
            return None;
        }
    }
    let ghost old_texts = text::texts(entries@);
    entries.push(e);
    assert(text::texts(entries@) =~= old_texts.push(e@));
    let entries = bound(entries);
    Some(write(&entries))
}

/// Whether every entry is trimmed, has something in it and lies on one line.
pub open spec fn are_clean(entries: Seq<Seq<char>>) -> bool {
    forall|i: int|
        0 <= i < entries.len() ==> is_trim(#[trigger] entries[i]) && !entries[i].contains('\n')
}

proof fn lemma_split_append(a: Seq<char>, b: Seq<char>)
    requires
        !b.contains('\n'),
    ensures
        split_lines(a + b) == split_lines(a).drop_last().push(split_lines(a).last() + b),
    decreases b.len(),
{
    lemma_split_nonempty(a);
    if b.len() == 0 {
        assert(a + b =~= a);
        assert(split_lines(a).last() + b =~= split_lines(a).last());
        assert(split_lines(a).drop_last().push(split_lines(a).last()) =~= split_lines(a));
    } else {
        let c = b.drop_last();
        assert(!c.contains('\n')) by {
            if c.contains('\n') {
                let i = choose|i: int| 0 <= i < c.len() && c[i] == '\n';
                assert(b[i] == '\n');
            }
        }
        lemma_split_append(a, c);
        assert((a + b).drop_last() =~= a + c);
        assert((a + b).last() == b.last());
        assert(b[b.len() - 1] != '\n');
        let before = split_lines(a + c);
        assert(before.drop_last() =~= split_lines(a).drop_last());
        assert(before.last().push(b.last()) =~= split_lines(a).last() + b);
    }
}

proof fn lemma_split_written(entries: Seq<Seq<char>>)
    requires
        are_clean(entries),
    ensures
        split_lines(written(entries)) == entries.push(Seq::empty()),
    decreases entries.len(),
{
    if entries.len() == 0 {
        assert(split_lines(written(entries)) =~= entries.push(Seq::empty()));
    } else {
        let before = entries.drop_last();
        assert forall|i: int| 0 <= i < before.len() implies is_trim(#[trigger] before[i])
            && !before[i].contains('\n') by {
            assert(entries[i] == before[i]);
        }
        lemma_split_written(before);
        let last = entries.last();
        assert(entries[entries.len() - 1] == last);
        lemma_split_append(written(before), last);
        let line = written(before) + last;
        assert(before.push(Seq::<char>::empty()).drop_last() =~= before);
        assert(Seq::<char>::empty() + last =~= last);
        assert(before.push(last) =~= entries);
        assert(line.push('\n').drop_last() =~= line);
    }
}

proof fn lemma_kept_clean(entries: Seq<Seq<char>>)
    requires
        are_clean(entries),
    ensures
        kept_lines(entries) == entries,
    decreases entries.len(),
{
    if entries.len() > 0 {
        let before = entries.drop_last();
        assert forall|i: int| 0 <= i < before.len() implies is_trim(#[trigger] before[i])
            && !before[i].contains('\n') by {
            assert(entries[i] == before[i]);
        }
        lemma_kept_clean(before);
        assert(entries[entries.len() - 1] == entries.last());
        lemma_trim_keeps(entries.last());
        assert(before.push(entries.last()) =~= entries);
    }
}

proof fn lemma_lines_have_no_break(s: Seq<char>)
    ensures
        forall|i: int| 0 <= i < split_lines(s).len() ==> !(#[trigger] split_lines(s)[i]).contains('\n'),
    decreases s.len(),
{
    if s.len() > 0 {
        let t = s.drop_last();
        lemma_lines_have_no_break(t);
        lemma_split_nonempty(t);
        let before = split_lines(t);
        assert forall|i: int| 0 <= i < split_lines(s).len() implies !(
        #[trigger] split_lines(s)[i]).contains('\n') by {
            if s.last() != '\n' && i == before.len() - 1 {
                let l = before.last();
                assert(l == before[i]);
                let m = l.push(s.last());
                if m.contains('\n') {
                    let k = choose|k: int| 0 <= k < m.len() && m[k] == '\n';
                    assert(k < l.len());
                    assert(l[k] == '\n');
                }
            } else if i < before.len() {
                assert(split_lines(s)[i] == before[i]);
            }
        }
    }
}

proof fn lemma_kept_are_clean(lines: Seq<Seq<char>>)
    requires
        forall|i: int| 0 <= i < lines.len() ==> !(#[trigger] lines[i]).contains('\n'),
    ensures
        are_clean(kept_lines(lines)),
    decreases lines.len(),
{
    if lines.len() > 0 {
        let before = lines.drop_last();
        assert forall|i: int| 0 <= i < before.len() implies !(#[trigger] before[i]).contains('\n') by {
            assert(lines[i] == before[i]);
        }
        lemma_kept_are_clean(before);
        assert(lines[lines.len() - 1] == lines.last());
        lemma_trimmed_is_trim(lines.last());
    }
}

/// What is loaded is clean, whatever the file holds.
pub proof fn law_loaded_is_clean(text: Seq<char>)
    ensures
        are_clean(loaded(text)),
        loaded(text).len() <= MAX_ENTRIES,
{
    lemma_lines_have_no_break(text);
    lemma_kept_are_clean(split_lines(text));
    let all = kept_lines(split_lines(text));
    assert forall|i: int| 0 <= i < loaded(text).len() implies is_trim(#[trigger] loaded(text)[i])
        && !loaded(text)[i].contains('\n') by {
        if all.len() > MAX_ENTRIES {
            assert(loaded(text)[i] == all[i + (all.len() - MAX_ENTRIES)]);
        }
    }
}

/// What is written loads again: a history of clean entries within the bound
/// reads back as it was.
pub proof fn law_written_loads(entries: Seq<Seq<char>>)
    requires
        are_clean(entries),
        entries.len() <= MAX_ENTRIES,
    ensures
        loaded(written(entries)) == entries,
{
    lemma_split_written(entries);
    lemma_kept_clean(entries);
    let lines = entries.push(Seq::<char>::empty());
    assert(lines.drop_last() =~= entries);
    assert(trimmed(Seq::<char>::empty()).len() == 0);
}

/// A recorded query is the newest one when the file is read again: the entries
/// before it are the newest of those that were there. A query with a line
/// break inside is left out, since a line holds one entry.
pub proof fn law_append_then_load(text: Seq<char>, entry: Seq<char>)
    requires
        recorded(loaded(text), entry) is Some,
        !trimmed(entry).contains('\n'),
    ensures
        loaded(written(recorded(loaded(text), entry)->0)) == bounded(
            loaded(text).push(trimmed(entry)),
        ),
        bounded(loaded(text).push(trimmed(entry))).last() == trimmed(entry),
{
    law_loaded_is_clean(text);
    lemma_trimmed_is_trim(entry);
    let all = loaded(text).push(trimmed(entry));
    let kept = bounded(all);
    assert forall|i: int| 0 <= i < kept.len() implies is_trim(#[trigger] kept[i])
        && !kept[i].contains('\n') by {
        let k = if all.len() > MAX_ENTRIES {
            i + (all.len() - MAX_ENTRIES)
        } else {
            i
        };
        assert(kept[i] == all[k]);
        if k < loaded(text).len() {
            assert(all[k] == loaded(text)[k]);
        }
    }
    law_written_loads(kept);
}

/// Recording a query twice in a row records it once.
pub proof fn law_no_immediate_duplicate(entries: Seq<Seq<char>>, entry: Seq<char>)
    requires
        recorded(entries, entry) is Some,
    ensures
        recorded(recorded(entries, entry)->0, entry) is None,
{
    let all = entries.push(trimmed(entry));
    assert(bounded(all).last() == trimmed(entry));
}

/// Where the history file stands: below the state directory of the environment,
/// else below the home directory.
pub fn history_path(state_home: Option<&[u8]>, home: Option<&[u8]>) -> (r: Option<Vec<u8>>)
    ensures
        r is Some <==> (state_home matches Some(b) && b@.len() > 0) || home is Some,
        r matches Some(v) ==> Some(v@) == paths::user_file(
            paths::path_of(state_home),
            paths::path_of(home),
            "camembert/history"@,
            ".local/state/camembert/history"@,
        ),
{
    proof {
        reveal_strlit("camembert/history");
        reveal_strlit(".local/state/camembert/history");
    }
    find_user_file(state_home, home, "camembert/history", ".local/state/camembert/history")
}

/// The history holds the newest two hundred entries, in order.
pub proof fn law_the_newest_entries_are_kept(entries: Seq<Seq<char>>)
    ensures
        entries.len() <= 200 ==> bounded(entries) == entries,
        entries.len() > 200 ==> bounded(entries).len() == 200 && bounded(entries) == entries.skip(
            entries.len() - 200,
        ),
{
}

/// Trimming takes white space from both ends and nothing else.
pub proof fn law_trimming_takes_only_space(s: Seq<char>)
    ensures
        exists|a: Seq<char>, b: Seq<char>|
            #![trigger is_blank(a), is_blank(b)]
            is_blank(a) && is_blank(b) && s == a + trimmed(s) + b,
        trimmed(s).len() > 0 ==> !is_space(trimmed(s)[0]) && !is_space(trimmed(s).last()),
        trimmed(s).len() == 0 <==> is_blank(s),
{
    let t = trimmed_start(s);
    let a = lemma_start_trimmed(s);
    let b = lemma_end_trimmed(t);
    assert(s =~= a + trimmed(s) + b);
    if trimmed(s).len() > 0 {
        assert(t[0] == trimmed(s)[0]);
    }
    if trimmed(s).len() == 0 {
        assert forall|i: int| 0 <= i < s.len() implies is_space(#[trigger] s[i]) by {
            if i < a.len() {
                assert(is_space(a[i]));
            } else {
                assert(is_space(b[i - a.len()]));
            }
        }
    } else {
        assert(s[a.len() as int] == trimmed(s)[0]);
    }
}

/// Whether a text is white space throughout.
pub open spec fn is_blank(s: Seq<char>) -> bool {
    forall|i: int| 0 <= i < s.len() ==> is_space(#[trigger] s[i])
}

proof fn lemma_start_trimmed(s: Seq<char>) -> (a: Seq<char>)
    ensures
        is_blank(a),
        s == a + trimmed_start(s),
        trimmed_start(s).len() > 0 ==> !is_space(trimmed_start(s)[0]),
    decreases s.len(),
{
    if s.len() > 0 && is_space(s[0]) {
        let b = lemma_start_trimmed(s.drop_first());
        let a = seq![s[0]] + b;
        let rest = trimmed_start(s.drop_first());
        assert(s =~= seq![s[0]] + s.drop_first());
        assert(s.drop_first() == b + rest);
        assert(s =~= a + rest);
        assert(trimmed_start(s) == rest);
        a
    } else {
        assert(s =~= Seq::<char>::empty() + s);
        Seq::empty()
    }
}

proof fn lemma_end_trimmed(s: Seq<char>) -> (b: Seq<char>)
    ensures
        is_blank(b),
        s == trimmed_end(s) + b,
        trimmed_end(s).len() > 0 ==> !is_space(trimmed_end(s).last()),
    decreases s.len(),
{
    if s.len() > 0 && is_space(s.last()) {
        let a = lemma_end_trimmed(s.drop_last());
        let b = a.push(s.last());
        let rest = trimmed_end(s.drop_last());
        assert(s =~= s.drop_last().push(s.last()));
        assert(s.drop_last() == rest + a);
        assert(s =~= rest + b);
        assert(trimmed_end(s) == rest);
        b
    } else {
        assert(s =~= s + Seq::<char>::empty());
        Seq::empty()
    }
}

/// Every line that is not blank is an entry, trimmed, and in order; a blank one is none.
pub proof fn law_lines_are_entries(lines: Seq<Seq<char>>, line: Seq<char>)
    ensures
        is_blank(line) ==> kept_lines(lines.push(line)) == kept_lines(lines),
        !is_blank(line) ==> kept_lines(lines.push(line)) == kept_lines(lines).push(trimmed(line)),
{
    assert(lines.push(line).drop_last() =~= lines);
    law_trimming_takes_only_space(line);
}

/// A query is recorded exactly if it is not blank and not the newest entry already.
pub proof fn law_new_queries_are_recorded(entries: Seq<Seq<char>>, entry: Seq<char>)
    ensures
        recorded(entries, entry) is None <==> is_blank(entry) || (entries.len() > 0
            && entries.last() == trimmed(entry)),
        recorded(entries, entry) matches Some(all) ==> all.last() == trimmed(entry) && (
        entries.len() < 200 ==> all.drop_last() == entries),
{
    law_trimming_takes_only_space(entry);
    assert(entries.push(trimmed(entry)).drop_last() =~= entries);
}

/// The characters of ASCII that are white space are the blank and the five controls from
/// the tab to the carriage return.
pub proof fn law_ascii_space(c: char)
    requires
        (c as u32) < 128,
    ensures
        is_space(c) <==> c == ' ' || c == '\t' || c == '\n' || c == '\u{b}' || c == '\u{c}' || c
            == '\r',
{
}

} // verus!
