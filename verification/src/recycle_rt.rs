//! The recycle bin's size: where its bytes are named, and when they are worth
//! a toast. They are never called free.

use crate::size;
use crate::size::push_human;
use crate::text;
use crate::text::push_dec;
use vstd::prelude::*;
use vstd::string::*;

verus! {

/// What a volume's recycle bin holds.
#[derive(Debug)]
pub struct BinStatus {
    /// The volume's path.
    pub volume: Vec<u8>,
    pub bytes: u64,
    pub items: u64,
}

impl BinStatus {
    /// Whether the bin holds nothing.
    pub fn is_empty(&self) -> (r: bool)
        ensures
            r == (self.bytes == 0 && self.items == 0),
    {
        self.bytes == 0 && self.items == 0
    }
}

/// Bytes below which nothing is worth a toast: 100 MiB.
pub const TOAST_MIN_BYTES: u64 = 104857600;

/// Whether the bin is worth a toast: at least 100 MiB, and at least one percent
/// of a volume that has a capacity.
pub fn should_toast(recycled_bytes: u64, capacity_bytes: u64) -> (r: bool)
    ensures
        r == (recycled_bytes >= TOAST_MIN_BYTES && capacity_bytes > 0 && 100 * recycled_bytes
            >= capacity_bytes),
        r ==> recycled_bytes >= 100 * 1024 * 1024,
        !r && recycled_bytes >= 100 * 1024 * 1024 && capacity_bytes > 0 ==> 100 * recycled_bytes
            < capacity_bytes,
{
    recycled_bytes >= TOAST_MIN_BYTES && capacity_bytes > 0 && 100 * recycled_bytes as u128
        >= capacity_bytes as u128
}

/// The disk gauge's suffix for a bin that is not empty.
pub fn gauge_suffix(status: &BinStatus) -> (r: Option<String>)
    ensures
        r is None <==> status.bytes == 0 && status.items == 0,
        r matches Some(s) ==> s@ == " · "@ + size::human(status.bytes) + " in the Recycle Bin"@,
{
    if status.is_empty() {
        return None;
    }
    let mut s = String::new();
    s.append(" · ");
    push_human(&mut s, status.bytes);
    s.append(" in the Recycle Bin");
    assert(s@ =~= " · "@ + size::human(status.bytes) + " in the Recycle Bin"@);
    Some(s)
}

/// The notification's text.
pub open spec fn toast_line(bytes: u64, items: u64) -> Seq<char> {
    "Recycle Bin: "@ + size::human(bytes) + " in "@ + text::dec(items as nat) + (if items == 1 {
        " item"@
    } else {
        " items"@
    }) + " — not free until you empty it"@
}

/// The notification at the end of a scan.
pub fn toast_text(status: &BinStatus) -> (s: String)
    ensures
        s@ == toast_line(status.bytes, status.items),
{
    let mut s = String::new();
    s.append("Recycle Bin: ");
    push_human(&mut s, status.bytes);
    s.append(" in ");
    push_dec(&mut s, status.items as u128);
    s.append(
        if status.items == 1 {
            " item"
        } else {
            " items"
        },
    );
    s.append(" — not free until you empty it");
    assert(s@ =~= toast_line(status.bytes, status.items));
    s
}

/// The notice tells the size of the bin and how many items are in it, one or several.
pub proof fn law_bin_is_told(bytes: u64, items: u64)
    ensures
        text::starts_with(
            toast_line(bytes, items),
            "Recycle Bin: "@ + size::human(bytes) + " in "@ + text::dec(items as nat),
        ),
        text::occurs_in(
            toast_line(bytes, items),
            text::dec(items as nat) + (if items == 1 {
                " item"@
            } else {
                " items"@
            }),
        ),
        text::ends_with(toast_line(bytes, items), " — not free until you empty it"@),
{
    let n = text::dec(items as nat);
    let l0 = "Recycle Bin: "@ + size::human(bytes) + " in "@;
    let word = if items == 1 {
        " item"@
    } else {
        " items"@
    };
    let end = " — not free until you empty it"@;
    text::lemma_itself(l0 + n);
    text::lemma_extend_by(l0 + n, l0 + n, word, end);
    text::lemma_side_by_side(l0, n, word);
    text::lemma_extend(l0 + n + word, n + word, end);
    text::lemma_ends(l0 + n + word, end);
}

} // verus!
