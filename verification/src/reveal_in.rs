//! Showing an entry in the platform's file manager: the program to run and its
//! arguments. No shell ever reads the path.

use crate::paths::{copy_bytes, push_bytes, SLASH};
use vstd::prelude::*;

verus! {

/// Whose file manager is asked.
#[derive(Debug, Clone, Copy, PartialEq, Eq, Structural)]
pub enum Platform {
    Windows,
    MacOs,
    OtherUnix,
}

/// A path without trailing separators and `/.` components; one separator stays
/// of a path that has nothing else.
pub open spec fn stripped(p: Seq<u8>) -> Seq<u8>
    decreases p.len(),
{
    if p.len() > 1 && p.last() == SLASH {
        stripped(p.drop_last())
    } else if p.len() > 1 && p.last() == 46 && p[p.len() - 2] == SLASH {
        stripped(p.drop_last())
    } else {
        p
    }
}

/// A path without its last component's bytes.
pub open spec fn before_last(p: Seq<u8>) -> Seq<u8>
    decreases p.len(),
{
    if p.len() == 0 || p.last() == SLASH {
        p
    } else {
        before_last(p.drop_last())
    }
}

/// The directory that holds a path's last component; an empty path and the
/// root have none.
pub open spec fn parent(p: Seq<u8>) -> Option<Seq<u8>> {
    let q = stripped(p);
    if q.len() == 0 || q == seq![SLASH] {
        None
    } else {
        Some(stripped(before_last(q)))
    }
}

/// How many leading bytes [`stripped`] keeps of the first `n`.
fn strip_len(p: &[u8], n: usize) -> (r: usize)
    requires
        n <= p@.len(),
    ensures
        r <= n,
        p@.take(r as int) == stripped(p@.take(n as int)),
{
    let mut r: usize = n;
    while r > 1 && (p[r - 1] == SLASH || (p[r - 1] == 46 && p[r - 2] == SLASH))
        invariant
            r <= n <= p@.len(),
            stripped(p@.take(r as int)) == stripped(p@.take(n as int)),
        decreases r,
    {
        assert(p@.take(r as int).drop_last() =~= p@.take(r - 1));
        r = r - 1;
    }
    r
}

/// The directory that holds a path's last component, as a prefix length.
fn parent_len(p: &[u8]) -> (r: Option<usize>)
    ensures
        r is Some <==> parent(p@) is Some,
        r matches Some(n) ==> n <= p@.len() && parent(p@) == Some(p@.take(n as int)),
{
    let n: usize = p.len();
    assert(p@.take(n as int) =~= p@);
    let q: usize = strip_len(p, n);
    if q == 0 {
        return None;
    }
    if q == 1 && p[0] == SLASH {
        assert(p@.take(1) =~= seq![SLASH]);
        return None;
    }
    assert(p@.take(q as int) != seq![SLASH]) by {
        if p@.take(q as int) == seq![SLASH] {
            assert(p@.take(q as int).len() == seq![SLASH].len());
            assert(q == 1);
            assert(p@.take(q as int)[0] == seq![SLASH][0]);
            assert(p@[0] == SLASH);
        }
    }
    let mut r: usize = q;
    while r > 0 && p[r - 1] != SLASH
        invariant
            r <= q <= p@.len(),
            before_last(p@.take(r as int)) == before_last(p@.take(q as int)),
        decreases r,
    {
        assert(p@.take(r as int).drop_last() =~= p@.take(r - 1));
        r = r - 1;
    }
    assert(before_last(p@.take(q as int)) == p@.take(r as int));
    Some(strip_len(p, r))
}

/// The name of the program that shows an entry.
pub open spec fn program(platform: Platform) -> Seq<char> {
    match platform {
        Platform::Windows => "explorer.exe"@,
        Platform::MacOs => "open"@,
        Platform::OtherUnix => "xdg-open"@,
    }
}

/// The bytes of `/select,`.
pub open spec fn select_switch() -> Seq<u8> {
    seq![47u8, 115u8, 101u8, 108u8, 101u8, 99u8, 116u8, 44u8]
}

/// The program's arguments: the path behind a switch without a space, the
/// path after `-R`, or the directory that holds the path (the path itself
/// where there is none).
pub open spec fn arguments(path: Seq<u8>, platform: Platform) -> Seq<Seq<u8>> {
    match platform {
        Platform::Windows => seq![select_switch() + path],
        Platform::MacOs => seq![seq![45u8, 82u8], path],
        Platform::OtherUnix => match parent(path) {
            Some(dir) => seq![dir],
            None => seq![path],
        },
    }
}

/// The program and the arguments that show a path in the file manager. The
/// path's bytes are passed on unchanged.
pub fn command_for(path: &[u8], platform: Platform) -> (r: (String, Vec<Vec<u8>>))
    ensures
        r.0@ == program(platform),
        r.1@.map_values(|v: Vec<u8>| v@) == arguments(path@, platform),
{
    let mut name = String::new();
    let mut args: Vec<Vec<u8>> = Vec::new();
    match platform {
        Platform::Windows => {
            name = crate::text::copy_str("explorer.exe");
            let mut arg: Vec<u8> = vec![47u8, 115u8, 101u8, 108u8, 101u8, 99u8, 116u8, 44u8];
            assert(arg@ =~= select_switch());
            push_bytes(&mut arg, path);
            args.push(arg);
        },
        Platform::MacOs => {
            name = crate::text::copy_str("open");
            let flag: Vec<u8> = vec![45u8, 82u8];
            assert(flag@ =~= seq![45u8, 82u8]);
            args.push(flag);
            args.push(copy_bytes(path));
        },
        Platform::OtherUnix => {
            name = crate::text::copy_str("xdg-open");
            match parent_len(path) {
                Some(n) => {
                    let mut dir: Vec<u8> = copy_bytes(path);
                    dir.truncate(n);
                    assert(dir@ =~= path@.take(n as int));
                    args.push(dir);
                },
                None => {
                    args.push(copy_bytes(path));
                },
            }
        },
    }
    assert(args@.map_values(|v: Vec<u8>| v@) =~= arguments(path@, platform));
    (name, args)
}

/// An entry is shown in the directory that holds it: the parent of a path is what stands
/// before its last name.
pub proof fn law_parent_holds_the_entry(dir: Seq<u8>, name: Seq<u8>)
    requires
        dir.len() > 0,
        stripped(dir) == dir,
        dir.last() != SLASH,
        name.len() > 0,
        !name.contains(SLASH),
        name != seq![46u8],
    ensures
        parent(dir.push(SLASH) + name) == Some(dir),
        arguments(dir.push(SLASH) + name, Platform::OtherUnix) == seq![dir],
{
    let p = dir.push(SLASH) + name;
    assert(name.contains(name.last()));
    assert(p.last() == name.last());
    if name.len() > 1 {
        assert(name.contains(name[name.len() - 2]));
        assert(p[p.len() - 2] == name[name.len() - 2]);
    } else {
        assert(name =~= seq![name[0]]);
        assert(p.last() != 46);
    }
    assert(stripped(p) == p);
    lemma_before_last(dir.push(SLASH), name);
    assert(dir.push(SLASH).drop_last() =~= dir);
    assert(stripped(dir.push(SLASH)) == stripped(dir));
    assert(p.len() > 1);
}

proof fn lemma_before_last(head: Seq<u8>, name: Seq<u8>)
    requires
        head.len() > 0,
        head.last() == SLASH,
        !name.contains(SLASH),
    ensures
        before_last(head + name) == head,
    decreases name.len(),
{
    if name.len() == 0 {
        assert(head + name =~= head);
    } else {
        assert(name.contains(name.last()));
        assert((head + name).drop_last() =~= head + name.drop_last());
        assert(!name.drop_last().contains(SLASH)) by {
            if name.drop_last().contains(SLASH) {
                let i = choose|i: int| 0 <= i < name.drop_last().len() && name.drop_last()[i]
                    == SLASH;
                assert(name[i] == SLASH);
            }
        }
        lemma_before_last(head, name.drop_last());
    }
}

/// On Windows and macOS the entry itself is handed over, whole, behind the switch that
/// selects it; the root, which has no parent, is opened itself.
pub proof fn law_entries_are_handed_over_whole(path: Seq<u8>)
    ensures
        arguments(path, Platform::Windows).len() == 1,
        arguments(path, Platform::Windows)[0].take(8) == seq![
            47u8,
            115u8,
            101u8,
            108u8,
            101u8,
            99u8,
            116u8,
            44u8,
        ],
        arguments(path, Platform::Windows)[0].skip(8) == path,
        arguments(path, Platform::MacOs).len() == 2,
        arguments(path, Platform::MacOs)[1] == path,
        parent(seq![SLASH]) is None,
        arguments(seq![SLASH], Platform::OtherUnix) == seq![seq![SLASH]],
{
    assert((select_switch() + path).take(8) =~= select_switch());
    assert((select_switch() + path).skip(8) =~= path);
    assert(stripped(seq![SLASH]) == seq![SLASH]);
}

} // verus!
