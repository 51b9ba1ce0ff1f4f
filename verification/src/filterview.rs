//! The line that an active filter shows.

use crate::size;
use crate::size::push_human;
use crate::text;
use crate::text::push_dec;
use vstd::prelude::*;
use vstd::string::*;

verus! {

/// Bytes of directory inodes that a filter does not count.
#[derive(Debug, Clone, Copy, PartialEq, Eq, Structural)]
pub struct Residual {
    pub apparent: u64,
    pub disk: u64,
    pub dirs: u64,
}

/// What a filter matched.
#[derive(Debug, Clone, Copy, PartialEq, Eq, Structural)]
pub struct FilterResult {
    pub matched_entries: u64,
    pub matched_apparent: u64,
    pub matched_disk: u64,
    /// Further names of files that are counted at their canonical path.
    pub matched_extra_links: u64,
    pub residual: Residual,
}

/// The explanation of bytes that are not counted; nothing where there are none.
pub open spec fn residual_text(bytes: u64, dirs: u64) -> Option<Seq<char>> {
    if bytes == 0 {
        None
    } else {
        Some(
            "+"@ + size::human(bytes) + " in "@ + text::dec(dirs as nat)
                + " directory inode(s) not counted"@,
        )
    }
}

/// The explanation of bytes that are not counted.
pub fn residual_line(residual_bytes: u64, dirs: u64) -> (r: Option<String>)
    ensures
        r is Some <==> residual_bytes > 0,
        r matches Some(s) ==> residual_text(residual_bytes, dirs) == Some(s@),
{
    if residual_bytes == 0 {
        return None;
    }
    let mut s = String::new();
    s.append("+");
    push_human(&mut s, residual_bytes);
    s.append(" in ");
    push_dec(&mut s, dirs as u128);
    s.append(" directory inode(s) not counted");
    assert(s@ =~= residual_text(residual_bytes, dirs)->0);
    Some(s)
}

/// The filter's line: the query, what matched, what is not counted, and how to
/// clear it.
pub open spec fn pill(query: Seq<char>, result: FilterResult, apparent: bool) -> Seq<char> {
    let bytes = if apparent {
        result.matched_apparent
    } else {
        result.matched_disk
    };
    let left_out = if apparent {
        result.residual.apparent
    } else {
        result.residual.disk
    };
    "/ "@ + query + "  ·  "@ + text::dec(result.matched_entries as nat) + " matched, "@
        + size::human(bytes) + (match residual_text(left_out, result.residual.dirs) {
        Some(line) => "  ·  "@ + line,
        None => Seq::empty(),
    }) + (if result.matched_extra_links > 0 {
        "  ·  "@ + text::dec(result.matched_extra_links as nat)
            + " \u{26d3} hardlink row(s) counted at their canonical path"@
    } else {
        Seq::empty()
    }) + "  ·  Esc clears"@
}

fn residual_part(bytes: u64, dirs: u64) -> (s: String)
    ensures
        s@ == (match residual_text(bytes, dirs) {
            Some(line) => "  ·  "@ + line,
            None => Seq::empty(),
        }),
{
    let mut s = String::new();
    if let Some(line) = residual_line(bytes, dirs) {
        s.append("  ·  ");
        s.append(line.as_str());
        assert(s@ =~= "  ·  "@ + line@);
    }
    s
}

fn links_part(links: u64) -> (s: String)
    ensures
        s@ == (if links > 0 {
            "  ·  "@ + text::dec(links as nat)
                + " \u{26d3} hardlink row(s) counted at their canonical path"@
        } else {
            Seq::empty()
        }),
{
    let mut s = String::new();
    if links > 0 {
        s.append("  ·  ");
        push_dec(&mut s, links as u128);
        s.append(" \u{26d3} hardlink row(s) counted at their canonical path");
        assert(s@ =~= "  ·  "@ + text::dec(links as nat)
            + " \u{26d3} hardlink row(s) counted at their canonical path"@);
    }
    s
}

/// The filter's line.
pub fn pill_text(query_text: &str, result: &FilterResult, show_apparent: bool) -> (s: String)
    ensures
        s@ == pill(query_text@, *result, show_apparent),
{
    let bytes: u64 = if show_apparent {
        result.matched_apparent
    } else {
        result.matched_disk
    };
    let left_out: u64 = if show_apparent {
        result.residual.apparent
    } else {
        result.residual.disk
    };
    let mut s = text::copy_str("/ ");
    s.append(query_text);
    s.append("  ·  ");
    push_dec(&mut s, result.matched_entries as u128);
    s.append(" matched, ");
    push_human(&mut s, bytes);
    s.append(residual_part(left_out, result.residual.dirs).as_str());
    s.append(links_part(result.matched_extra_links).as_str());
    s.append("  ·  Esc clears");
    s
}

/// The pill follows the size that is shown: with the disk sizes shown, the apparent
/// ones do not matter, and the other way round.
pub proof fn law_pill_follows_the_shown_size(query: Seq<char>, a: FilterResult, b: FilterResult)
    requires
        a.matched_entries == b.matched_entries,
        a.matched_extra_links == b.matched_extra_links,
        a.residual.dirs == b.residual.dirs,
    ensures
        a.matched_disk == b.matched_disk && a.residual.disk == b.residual.disk ==> pill(
            query,
            a,
            false,
        ) == pill(query, b, false),
        a.matched_apparent == b.matched_apparent && a.residual.apparent == b.residual.apparent
            ==> pill(query, a, true) == pill(query, b, true),
{
}

/// The pill starts with the query and tells how many entries matched and their size;
/// what a query never matches is told exactly if there is any, and so are further names
/// of files.
pub proof fn law_pill_tells_what_matched(query: Seq<char>, r: FilterResult, apparent: bool)
    ensures
        ({
            let s = pill(query, r, apparent);
            let bytes = if apparent {
                r.matched_apparent
            } else {
                r.matched_disk
            };
            let left_out = if apparent {
                r.residual.apparent
            } else {
                r.residual.disk
            };
            &&& text::starts_with(s, "/ "@ + query + "  ·  "@)
            &&& text::occurs_in(
                s,
                text::dec(r.matched_entries as nat) + " matched, "@ + size::human(bytes),
            )
            &&& left_out > 0 ==> text::occurs_in(s, size::human(left_out)) && text::occurs_in(
                s,
                text::dec(r.residual.dirs as nat) + " directory inode(s) not counted"@,
            )
            &&& r.matched_extra_links > 0 ==> text::occurs_in(
                s,
                text::dec(r.matched_extra_links as nat)
                    + " \u{26d3} hardlink row(s) counted at their canonical path"@,
            )
            &&& text::ends_with(s, "Esc clears"@)
        }),
        residual_text(0, r.residual.dirs) is None,
{
    let bytes = if apparent {
        r.matched_apparent
    } else {
        r.matched_disk
    };
    let left_out = if apparent {
        r.residual.apparent
    } else {
        r.residual.disk
    };
    let n = text::dec(r.matched_entries as nat);
    let l0 = "/ "@ + query + "  ·  "@;
    let l1 = l0 + n + " matched, "@ + size::human(bytes);
    let matched = n + " matched, "@ + size::human(bytes);
    let rest = match residual_text(left_out, r.residual.dirs) {
        Some(line) => "  ·  "@ + line,
        None => Seq::<char>::empty(),
    };
    let more = text::dec(r.matched_extra_links as nat)
        + " \u{26d3} hardlink row(s) counted at their canonical path"@;
    let links = if r.matched_extra_links > 0 {
        "  ·  "@ + text::dec(r.matched_extra_links as nat)
            + " \u{26d3} hardlink row(s) counted at their canonical path"@
    } else {
        Seq::<char>::empty()
    };
    let end = "  ·  Esc clears"@;
    let s = l1 + rest + links + end;
    assert(s == pill(query, r, apparent));
    text::lemma_itself(l0);
    text::lemma_side_by_side(l0, n, " matched, "@);
    text::lemma_side_by_side(l0, n + " matched, "@, size::human(bytes));
    text::lemma_extend_by(l0, l0, n, " matched, "@);
    text::lemma_extend(l0 + n + " matched, "@, l0, size::human(bytes));
    text::lemma_extend_by(l1, l0, rest, links);
    text::lemma_extend(l1 + rest + links, l0, end);
    text::lemma_extend_by(l1, matched, rest, links);
    text::lemma_extend(l1 + rest + links, matched, end);
    if left_out > 0 {
        let size = size::human(left_out);
        let dirs = text::dec(r.residual.dirs as nat);
        let word = " directory inode(s) not counted"@;
        let line = "+"@ + size + " in "@ + dirs + word;
        text::lemma_occurs("+"@, size, " in "@);
        text::lemma_extend_by("+"@ + size + " in "@, size, dirs, word);
        text::lemma_side_by_side("+"@ + size + " in "@, dirs, word);
        assert(residual_text(left_out, r.residual.dirs) == Some(line));
        lemma_put(l1, "  ·  "@, line, size, links, end);
        lemma_put(l1, "  ·  "@, line, dirs + word, links, end);
    }
    if r.matched_extra_links > 0 {
        let k = text::dec(r.matched_extra_links as nat);
        let word = " \u{26d3} hardlink row(s) counted at their canonical path"@;
        text::lemma_side_by_side("  ·  "@, k, word);
        text::lemma_itself(more);
        lemma_put(l1 + rest, "  ·  "@, more, more, Seq::empty(), end);
        assert(l1 + rest + ("  ·  "@ + more) + Seq::<char>::empty() =~= l1 + rest + links);
    }
    reveal_strlit("  ·  Esc clears");
    reveal_strlit("Esc clears");
    reveal_strlit("  ·  ");
    assert(end =~= "  ·  "@ + "Esc clears"@);
    text::lemma_side_by_side(l1 + rest + links, "  ·  "@, "Esc clears"@);
    text::lemma_ends(l1 + rest + links + "  ·  "@, "Esc clears"@);
}

/// What stands in a text stands in all that the text is put into.
proof fn lemma_put(
    head: Seq<char>,
    sep: Seq<char>,
    line: Seq<char>,
    part: Seq<char>,
    a: Seq<char>,
    b: Seq<char>,
)
    requires
        text::occurs_in(line, part),
    ensures
        text::occurs_in(head + (sep + line) + a + b, part),
{
    let i = choose|i: int| text::occurs_at(line, part, i);
    let s = head + (sep + line);
    let at = head.len() + sep.len() + i;
    assert(s.subrange(at, at + part.len()) =~= line.subrange(i, i + part.len()));
    assert(text::occurs_at(s, part, at));
    text::lemma_extend_by(s, part, a, b);
}

} // verus!
