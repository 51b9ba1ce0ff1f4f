//! Paths as raw bytes.

use crate::text::chars_of;
use vstd::prelude::*;
use vstd::string::*;

verus! {

/// The byte between two path components.
pub const SLASH: u8 = 47;

/// `name` below the directory `base`: an absolute `name` stands alone, and a
/// separator is put between the two unless `base` is empty or ends in one.
pub open spec fn joined(base: Seq<u8>, name: Seq<u8>) -> Seq<u8> {
    if name.len() > 0 && name[0] == SLASH {
        name
    } else if base.len() == 0 || base.last() == SLASH {
        base + name
    } else {
        base.push(SLASH) + name
    }
}

/// A copy of some bytes.
pub fn copy_bytes(v: &[u8]) -> (r: Vec<u8>)
    ensures
        r@ == v@,
{
    let mut r: Vec<u8> = Vec::new();
    push_bytes(&mut r, v);
    assert(r@ =~= v@);
    r
}

/// Appends bytes.
pub fn push_bytes(out: &mut Vec<u8>, v: &[u8])
    ensures
        final(out)@ == old(out)@ + v@,
{
    let mut i: usize = 0;
    while i < v.len()
        invariant
            i <= v@.len(),
            out@ == old(out)@ + v@.take(i as int),
        decreases v@.len() - i,
    {
        out.push(v[i]);
        assert(v@.take(i + 1) =~= v@.take(i as int).push(v@[i as int]));
        i = i + 1;
    }
    assert(v@.take(v@.len() as int) =~= v@);
}

/// Joins a directory's path and an entry's name.
pub fn join(base: &[u8], name: &[u8]) -> (r: Vec<u8>)
    ensures
        r@ == joined(base@, name@),
{
    if name.len() > 0 && name[0] == SLASH {
        return copy_bytes(name);
    }
    let mut r = copy_bytes(base);
    if base.len() > 0 && base[base.len() - 1] != SLASH {
        r.push(SLASH);
    }
    push_bytes(&mut r, name);
    r
}

/// The bytes of an ASCII text.
pub open spec fn ascii(s: Seq<char>) -> Seq<u8> {
    Seq::new(s.len(), |i: int| s[i] as u8)
}

/// Converts an ASCII text to its bytes.
pub fn ascii_bytes(s: &str) -> (r: Vec<u8>)
    requires
        forall|i: int| 0 <= i < s@.len() ==> (#[trigger] s@[i] as u32) < 128,
    ensures
        r@ == ascii(s@),
{
    let chars = chars_of(s);
    let mut r: Vec<u8> = Vec::new();
    let mut i: usize = 0;
    while i < chars.len()
        invariant
            i <= chars@.len(),
            chars@ == s@,
            r@ == ascii(s@).take(i as int),
        decreases chars@.len() - i,
    {
        r.push(chars[i] as u8);
        i = i + 1;
        assert(r@ =~= ascii(s@).take(i as int));
    }
    assert(ascii(s@).take(i as int) =~= ascii(s@));
    r
}

/// Where a file of the user's stands: below the base directory that the
/// environment names, unless it is empty, else below the home directory; nowhere
/// without either.
pub open spec fn user_file(
    base: Option<Seq<u8>>,
    home: Option<Seq<u8>>,
    below_base: Seq<char>,
    below_home: Seq<char>,
) -> Option<Seq<u8>> {
    match base {
        Some(b) if b.len() > 0 => Some(joined(b, ascii(below_base))),
        _ => match home {
            Some(h) => Some(joined(h, ascii(below_home))),
            None => None,
        },
    }
}

/// The bytes behind an optional path.
pub open spec fn path_of(p: Option<&[u8]>) -> Option<Seq<u8>> {
    match p {
        Some(v) => Some(v@),
        None => None,
    }
}

/// Finds where a file of the user's stands.
pub fn find_user_file(
    base: Option<&[u8]>,
    home: Option<&[u8]>,
    below_base: &str,
    below_home: &str,
) -> (r: Option<Vec<u8>>)
    requires
        forall|i: int| 0 <= i < below_base@.len() ==> (#[trigger] below_base@[i] as u32) < 128,
        forall|i: int| 0 <= i < below_home@.len() ==> (#[trigger] below_home@[i] as u32) < 128,
    ensures
        r is Some <==> user_file(path_of(base), path_of(home), below_base@, below_home@) is Some,
        r matches Some(v) ==> Some(v@) == user_file(
            path_of(base),
            path_of(home),
            below_base@,
            below_home@,
        ),
{
    if let Some(b) = base {
        if b.len() > 0 {
            return Some(join(b, ascii_bytes(below_base).as_slice()));
        }
    }
    match home {
        Some(h) => Some(join(h, ascii_bytes(below_home).as_slice())),
        None => None,
    }
}

/// A joined path ends in the name, and starts with the base unless the name is a
/// path from the root; exactly one slash stands between them.
pub proof fn law_joined_paths_hold_both(base: Seq<u8>, name: Seq<u8>)
    ensures
        ({
            let path = joined(base, name);
            let from_root = name.len() > 0 && name[0] == 47;
            &&& path.len() >= name.len()
            &&& path.skip(path.len() - name.len()) == name
            &&& from_root ==> path == name
            &&& !from_root ==> path.len() >= base.len() && path.take(base.len() as int) == base
            &&& !from_root && base.len() > 0 && base.last() != 47 ==> path[base.len() as int] == 47
                && path.len() == base.len() + 1 + name.len()
            &&& !from_root && base.len() > 0 && base.last() == 47 ==> path.len() == base.len()
                + name.len()
        }),
{
    let path = joined(base, name);
    assert(path.skip(path.len() - name.len()) =~= name);
    if !(name.len() > 0 && name[0] == 47) {
        assert(path.take(base.len() as int) =~= base);
    }
}

/// Names in one directory are told apart by their paths.
pub proof fn law_joined_paths_tell_names_apart(base: Seq<u8>, a: Seq<u8>, b: Seq<u8>)
    requires
        a.len() > 0 && a[0] != 47,
        b.len() > 0 && b[0] != 47,
        joined(base, a) == joined(base, b),
    ensures
        a == b,
{
    law_joined_paths_hold_both(base, a);
    law_joined_paths_hold_both(base, b);
    assert(joined(base, a).len() == joined(base, b).len());
    assert(a.len() == b.len());
}

/// A user's file lies below the base directory where one is set, and else below the
/// home directory; without either there is none. An empty base is none.
pub proof fn law_user_files_prefer_the_base(
    base: Option<Seq<u8>>,
    home: Option<Seq<u8>>,
    below_base: Seq<char>,
    below_home: Seq<char>,
)
    ensures
        user_file(base, home, below_base, below_home) is None <==> home is None && !(base matches Some(
            b,
        ) && b.len() > 0),
        base matches Some(b) ==> b.len() > 0 ==> user_file(base, home, below_base, below_home)
            == Some(joined(b, ascii(below_base))),
        user_file(None, home, below_base, below_home) == user_file(
            Some(Seq::empty()),
            home,
            below_base,
            below_home,
        ),
        home matches Some(h) ==> user_file(None, home, below_base, below_home) == Some(
            joined(h, ascii(below_home)),
        ),
{
}

} // verus!
