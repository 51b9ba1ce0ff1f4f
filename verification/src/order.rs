//! Orderings: byte strings compared lexicographically, and a stable sort of
//! row positions.

use vstd::multiset::Multiset;
use vstd::prelude::*;
use vstd::seq_lib::*;

verus! {

/// Lexicographic comparison of byte strings: negative, zero or positive as
/// `a` comes before, equals or comes after `b`.
pub open spec fn lex(a: Seq<u8>, b: Seq<u8>) -> int
    decreases a.len(),
{
    if a.len() == 0 {
        if b.len() == 0 {
            0
        } else {
            -1
        }
    } else if b.len() == 0 {
        1
    } else if a[0] != b[0] {
        a[0] - b[0]
    } else {
        lex(a.drop_first(), b.drop_first())
    }
}

/// Swapping the operands flips the sign.
pub proof fn lemma_lex_flip(a: Seq<u8>, b: Seq<u8>)
    ensures
        lex(a, b) == -lex(b, a),
    decreases a.len(),
{
    if a.len() > 0 && b.len() > 0 && a[0] == b[0] {
        lemma_lex_flip(a.drop_first(), b.drop_first());
    }
}

/// Only equal byte strings compare as equal.
pub proof fn lemma_lex_zero(a: Seq<u8>, b: Seq<u8>)
    ensures
        lex(a, b) == 0 <==> a == b,
    decreases a.len(),
{
    if a.len() > 0 && b.len() > 0 && a[0] == b[0] {
        lemma_lex_zero(a.drop_first(), b.drop_first());
        if a.drop_first() == b.drop_first() {
            assert(a =~= seq![a[0]] + a.drop_first());
            assert(b =~= seq![b[0]] + b.drop_first());
        }
    } else if a.len() == 0 && b.len() == 0 {
        assert(a =~= b);
    }
}

/// The comparison is transitive.
pub proof fn lemma_lex_trans(a: Seq<u8>, b: Seq<u8>, c: Seq<u8>)
    requires
        lex(a, b) < 0,
        lex(b, c) < 0,
    ensures
        lex(a, c) < 0,
    decreases a.len(),
{
    if a.len() > 0 && b.len() > 0 && c.len() > 0 && a[0] == b[0] && b[0] == c[0] {
        lemma_lex_trans(a.drop_first(), b.drop_first(), c.drop_first());
    }
}

/// Lexicographic comparison is a total preorder, in every direction that the
/// sorts need.
pub proof fn lemma_lex_order(x: Seq<u8>, y: Seq<u8>, z: Seq<u8>)
    ensures
        lex(x, y) == -lex(y, x),
        lex(y, z) == -lex(z, y),
        lex(x, z) == -lex(z, x),
        lex(x, x) == 0,
        lex(x, y) == 0 <==> x == y,
        lex(y, z) == 0 <==> y == z,
        lex(x, z) == 0 <==> x == z,
        lex(x, y) < 0 && lex(y, z) < 0 ==> lex(x, z) < 0,
        lex(x, y) > 0 && lex(y, z) > 0 ==> lex(x, z) > 0,
{
    lemma_lex_flip(x, y);
    lemma_lex_flip(y, z);
    lemma_lex_flip(x, z);
    lemma_lex_zero(x, x);
    lemma_lex_zero(x, y);
    lemma_lex_zero(y, z);
    lemma_lex_zero(x, z);
    if lex(x, y) < 0 && lex(y, z) < 0 {
        lemma_lex_trans(x, y, z);
    }
    if lex(x, y) > 0 && lex(y, z) > 0 {
        lemma_lex_trans(z, y, x);
    }
}

/// Compares two numbers: below zero, zero or above it.
pub fn compare_u64(a: u64, b: u64) -> (r: i8)
    ensures
        r == (if a < b { -1int } else if a > b { 1int } else { 0int }),
{
    if a < b {
        -1
    } else if a > b {
        1
    } else {
        0
    }
}

/// Compares two byte strings: the sign of the result is that of [`lex`].
pub fn compare_bytes(a: &[u8], b: &[u8]) -> (r: i8)
    ensures
        r == (if lex(a@, b@) < 0 { -1int } else if lex(a@, b@) > 0 { 1int } else { 0int }),
{
    let mut i: usize = 0;
    proof {
        assert(a@.skip(0) =~= a@);
        assert(b@.skip(0) =~= b@);
    }
    while i < a.len() && i < b.len()
        invariant
            i <= a@.len(),
            i <= b@.len(),
            lex(a@, b@) == lex(a@.skip(i as int), b@.skip(i as int)),
        decreases a@.len() - i,
    {
        if a[i] < b[i] {
            return -1;
        }
        if a[i] > b[i] {
            return 1;
        }
        assert(a@.skip(i as int).drop_first() =~= a@.skip(i + 1));
        assert(b@.skip(i as int).drop_first() =~= b@.skip(i + 1));
        i = i + 1;
    }
    if i < b.len() {
        -1
    } else if i < a.len() {
        1
    } else {
        0
    }
}

/// A strict total order on the positions of some collection, with an
/// executable test.
pub trait StrictOrder: Sized {
    /// Whether a position belongs to the collection.
    spec fn has(&self, a: usize) -> bool;

    /// Whether position `a` comes before position `b`.
    spec fn before(&self, a: usize, b: usize) -> bool;

    /// Nothing comes before itself.
    proof fn irreflexive(&self, a: usize)
        ensures
            !self.before(a, a),
    ;

    /// Of two different positions one comes first.
    proof fn total(&self, a: usize, b: usize)
        requires
            a != b,
        ensures
            self.before(a, b) || self.before(b, a),
    ;

    /// The order is transitive.
    proof fn transitive(&self, a: usize, b: usize, c: usize)
        requires
            self.before(a, b),
            self.before(b, c),
        ensures
            self.before(a, c),
    ;

    /// Tests whether position `a` comes before position `b`.
    fn precedes(&self, a: usize, b: usize) -> (r: bool)
        requires
            self.has(a),
            self.has(b),
        ensures
            r == self.before(a, b),
    ;
}

/// Whether every position of `s` comes before all later ones.
pub open spec fn increasing<O: StrictOrder>(s: Seq<usize>, o: O) -> bool {
    forall|i: int, j: int| 0 <= i < j < s.len() ==> o.before(#[trigger] s[i], #[trigger] s[j])
}

/// Whether every position of `s` belongs to the collection.
pub open spec fn all_in<O: StrictOrder>(s: Seq<usize>, o: O) -> bool {
    forall|i: int| 0 <= i < s.len() ==> o.has(#[trigger] s[i])
}

/// The positions `0, 1, …, n - 1`.
pub open spec fn positions(n: nat) -> Seq<usize> {
    Seq::new(n, |i: int| i as usize)
}

/// Whether `s` lists the positions below `n`, each once, in increasing order.
pub open spec fn is_sorted_order<O: StrictOrder>(s: Seq<usize>, n: nat, o: O) -> bool {
    &&& s.to_multiset() == positions(n).to_multiset()
    &&& increasing(s, o)
}

proof fn lemma_skip_multiset(s: Seq<usize>, i: int)
    requires
        0 <= i < s.len(),
    ensures
        s.skip(i).to_multiset() == s.skip(i + 1).to_multiset().insert(s[i]),
{
    broadcast use group_to_multiset_ensures;

    assert(s.skip(i) =~= seq![s[i]] + s.skip(i + 1));
    lemma_multiset_commutative(seq![s[i]], s.skip(i + 1));
    assert(seq![s[i]] =~= Seq::<usize>::empty().push(s[i]));
    assert(Seq::<usize>::empty().to_multiset() =~= Multiset::empty());
    assert(s.skip(i).to_multiset() =~= s.skip(i + 1).to_multiset().insert(s[i]));
}

proof fn lemma_multiset_in<O: StrictOrder>(a: Seq<usize>, b: Seq<usize>, o: O)
    requires
        a.to_multiset() == b.to_multiset(),
        all_in(b, o),
    ensures
        all_in(a, o),
        a.len() == b.len(),
{
    broadcast use group_to_multiset_ensures;

    assert forall|i: int| 0 <= i < a.len() implies o.has(#[trigger] a[i]) by {
        assert(a.contains(a[i]));
        assert(a.to_multiset().count(a[i]) > 0);
        assert(b.contains(a[i]));
        let j = choose|j: int| 0 <= j < b.len() && b[j] == a[i];
        assert(o.has(b[j]));
    }
    assert(a.to_multiset().len() == a.len());
    assert(b.to_multiset().len() == b.len());
}

fn merge<O: StrictOrder>(l: &Vec<usize>, r: &Vec<usize>, o: &O) -> (out: Vec<usize>)
    requires
        all_in(l@, *o),
        all_in(r@, *o),
        increasing(l@, *o),
        increasing(r@, *o),
        forall|i: int, j: int|
            0 <= i < l@.len() && 0 <= j < r@.len() ==> #[trigger] l@[i] != #[trigger] r@[j],
    ensures
        increasing(out@, *o),
        out@.to_multiset() == l@.to_multiset().add(r@.to_multiset()),
{
    broadcast use group_to_multiset_ensures;

    let mut out: Vec<usize> = Vec::new();
    let mut i: usize = 0;
    let mut j: usize = 0;
    proof {
        assert(l@.skip(0) =~= l@);
        assert(r@.skip(0) =~= r@);
        assert(out@ =~= Seq::<usize>::empty());
        assert(out@.to_multiset() =~= Multiset::empty());
        assert(out@.to_multiset().add(l@.to_multiset()).add(r@.to_multiset())
            =~= l@.to_multiset().add(r@.to_multiset()));
    }
    while i < l.len() || j < r.len()
        invariant
            i <= l@.len(),
            j <= r@.len(),
            all_in(l@, *o),
            all_in(r@, *o),
            increasing(l@, *o),
            increasing(r@, *o),
            forall|i: int, j: int|
                0 <= i < l@.len() && 0 <= j < r@.len() ==> #[trigger] l@[i] != #[trigger] r@[j],
            increasing(out@, *o),
            forall|k: int, m: int|
                0 <= k < out@.len() && i <= m < l@.len() ==> o.before(
                    #[trigger] out@[k],
                    #[trigger] l@[m],
                ),
            forall|k: int, m: int|
                0 <= k < out@.len() && j <= m < r@.len() ==> o.before(
                    #[trigger] out@[k],
                    #[trigger] r@[m],
                ),
            out@.to_multiset().add(l@.skip(i as int).to_multiset()).add(
                r@.skip(j as int).to_multiset(),
            ) == l@.to_multiset().add(r@.to_multiset()),
        decreases l@.len() - i + r@.len() - j,
    {
        let ghost before = out@;
        let take_left = if i >= l.len() {
            false
        } else if j >= r.len() {
            true
        } else {
            o.precedes(l[i], r[j])
        };
        if take_left {
            proof {
                lemma_skip_multiset(l@, i as int);
                assert forall|m: int| j <= m < r@.len() implies o.before(
                    l@[i as int],
                    #[trigger] r@[m],
                ) by {
                    if m > j {
                        o.transitive(l@[i as int], r@[j as int], r@[m]);
                    }
                }
            }
            out.push(l[i]);
            proof {
                broadcast use group_to_multiset_ensures;

                assert(out@ =~= before.push(l@[i as int]));
                assert(out@.to_multiset() == before.to_multiset().insert(l@[i as int]));
                assert(out@.to_multiset().add(l@.skip(i + 1).to_multiset()).add(
                    r@.skip(j as int).to_multiset(),
                ) =~= before.to_multiset().add(l@.skip(i as int).to_multiset()).add(
                    r@.skip(j as int).to_multiset(),
                ));
            }
            i = i + 1;
        } else {
            proof {
                lemma_skip_multiset(r@, j as int);
                assert forall|m: int| i <= m < l@.len() implies o.before(
                    r@[j as int],
                    #[trigger] l@[m],
                ) by {
                    o.total(l@[i as int], r@[j as int]);
                    if m > i {
                        o.transitive(r@[j as int], l@[i as int], l@[m]);
                    }
                }
            }
            out.push(r[j]);
            proof {
                broadcast use group_to_multiset_ensures;

                assert(out@ =~= before.push(r@[j as int]));
                assert(out@.to_multiset() == before.to_multiset().insert(r@[j as int]));
                assert(out@.to_multiset().add(l@.skip(i as int).to_multiset()).add(
                    r@.skip(j + 1).to_multiset(),
                ) =~= before.to_multiset().add(l@.skip(i as int).to_multiset()).add(
                    r@.skip(j as int).to_multiset(),
                ));
            }
            j = j + 1;
        }
    }
    proof {
        assert(l@.skip(i as int) =~= Seq::<usize>::empty());
        assert(r@.skip(j as int) =~= Seq::<usize>::empty());
        assert(Seq::<usize>::empty().to_multiset() =~= Multiset::empty());
        assert(out@.to_multiset() =~= l@.to_multiset().add(r@.to_multiset()));
    }
    out
}

fn merge_sort<O: StrictOrder>(v: Vec<usize>, o: &O) -> (out: Vec<usize>)
    requires
        all_in(v@, *o),
        v@.no_duplicates(),
    ensures
        increasing(out@, *o),
        out@.to_multiset() == v@.to_multiset(),
    decreases v@.len(),
{
    if v.len() < 2 {
        return v;
    }
    let mut left = v;
    let ghost whole = left@;
    let half: usize = left.len() / 2;
    let right = left.split_off(half);
    proof {
        assert(whole =~= left@ + right@);
        lemma_multiset_commutative(left@, right@);
        assert forall|i: int| 0 <= i < left@.len() implies o.has(#[trigger] left@[i]) by {
            assert(left@[i] == whole[i]);
        }
        assert forall|i: int| 0 <= i < right@.len() implies o.has(#[trigger] right@[i]) by {
            assert(right@[i] == whole[i + half]);
        }
    }
    let ghost l0 = left@;
    let ghost r0 = right@;
    let l = merge_sort(left, o);
    let r = merge_sort(right, o);
    proof {
        lemma_multiset_in(l@, l0, *o);
        lemma_multiset_in(r@, r0, *o);
        assert forall|i: int, j: int|
            0 <= i < l@.len() && 0 <= j < r@.len() implies #[trigger] l@[i] != #[trigger] r@[j] by {
            broadcast use group_to_multiset_ensures;

            if l@[i] == r@[j] {
                assert(l@.contains(l@[i]));
                assert(l0.to_multiset().count(l@[i]) > 0);
                assert(l0.contains(l@[i]));
                assert(r@.contains(r@[j]));
                assert(r0.to_multiset().count(r@[j]) > 0);
                assert(r0.contains(r@[j]));
                let x = choose|x: int| 0 <= x < l0.len() && l0[x] == l@[i];
                let y = choose|y: int| 0 <= y < r0.len() && r0[y] == r@[j];
                assert(whole[x] == l0[x]);
                assert(whole[y + half] == r0[y]);
            }
        }
    }
    merge(&l, &r, o)
}

/// Sorts the positions below `n`. Positions that compare alike do not exist:
/// an order that falls back on the positions themselves makes the sort
/// stable.
pub fn sort_positions<O: StrictOrder>(n: usize, o: &O) -> (out: Vec<usize>)
    requires
        forall|i: usize| i < n ==> #[trigger] o.has(i),
    ensures
        is_sorted_order(out@, n as nat, *o),
        out@.len() == n,
        forall|i: int| 0 <= i < out@.len() ==> #[trigger] out@[i] < n,
{
    let mut v: Vec<usize> = Vec::new();
    let mut i: usize = 0;
    while i < n
        invariant
            i <= n,
            v@ == positions(i as nat),
        decreases n - i,
    {
        v.push(i);
        i = i + 1;
        assert(v@ =~= positions(i as nat));
    }
    let out = merge_sort(v, o);
    proof {
        lemma_sorted_order_range(out@, n as nat, *o);
    }
    out
}

/// A sorted order of `n` positions has `n` entries, all below `n`.
pub proof fn lemma_sorted_order_range<O: StrictOrder>(s: Seq<usize>, n: nat, o: O)
    requires
        is_sorted_order(s, n, o),
        n <= usize::MAX,
    ensures
        s.len() == n,
        forall|i: int| 0 <= i < s.len() ==> #[trigger] s[i] < n,
{
    broadcast use group_to_multiset_ensures;

    let p = positions(n);
    assert(s.to_multiset().len() == s.len());
    assert(p.to_multiset().len() == p.len());
    assert forall|i: int| 0 <= i < s.len() implies #[trigger] s[i] < n by {
        assert(s.contains(s[i]));
        assert(s.to_multiset().count(s[i]) > 0);
        assert(p.contains(s[i]));
        let j = choose|j: int| 0 <= j < p.len() && p[j] == s[i];
        assert(p[j] == j as usize);
    }
}

/// Every position below `n` occurs in a sorted order of `n` positions.
pub proof fn lemma_sorted_order_covers<O: StrictOrder>(s: Seq<usize>, n: nat, o: O, k: usize)
    requires
        is_sorted_order(s, n, o),
        k < n,
        n <= usize::MAX,
    ensures
        s.contains(k),
{
    broadcast use group_to_multiset_ensures;

    let p = positions(n);
    assert(p[k as int] == k);
    assert(p.contains(k));
    assert(p.to_multiset().count(k) > 0);
    assert(s.to_multiset().count(k) > 0);
}

/// The entry at place `p` of a sorted order has exactly `p` positions before
/// it.
pub proof fn lemma_sorted_order_rank<O: StrictOrder>(s: Seq<usize>, n: nat, o: O, p: int)
    requires
        is_sorted_order(s, n, o),
        n <= usize::MAX,
        0 <= p < s.len(),
    ensures
        Set::new(|k: usize| k < n && o.before(k, s[p])).finite(),
        Set::new(|k: usize| k < n && o.before(k, s[p])).len() == p,
{
    lemma_sorted_order_range(s, n, o);
    let first = s.take(p);
    let smaller = Set::new(|k: usize| k < n && o.before(k, s[p]));
    assert(first.no_duplicates()) by {
        assert forall|i: int, j: int| 0 <= i < j < first.len() implies first[i] != first[j] by {
            assert(o.before(s[i], s[j]));
            o.irreflexive(s[i]);
        }
    }
    first.unique_seq_to_set();
    assert(first.to_set() =~= smaller) by {
        assert forall|k: usize| smaller.contains(k) implies first.to_set().contains(k) by {
            lemma_sorted_order_covers(s, n, o, k);
            let j = choose|j: int| 0 <= j < s.len() && s[j] == k;
            if j > p {
                o.transitive(k, s[p], k);
                o.irreflexive(k);
            } else if j == p {
                o.irreflexive(k);
            }
            assert(first[j] == k);
        }
        assert forall|k: usize| first.to_set().contains(k) implies smaller.contains(k) by {
            let j = choose|j: int| 0 <= j < first.len() && first[j] == k;
            assert(s[j] == k);
        }
    }
}

proof fn lemma_multiset_drop_first(s: Seq<usize>)
    requires
        s.len() > 0,
    ensures
        s.to_multiset() == s.drop_first().to_multiset().insert(s[0]),
{
    lemma_skip_multiset(s, 0);
    assert(s.skip(0) =~= s);
    assert(s.skip(1) =~= s.drop_first());
}

proof fn lemma_same_multiset_unique<O: StrictOrder>(a: Seq<usize>, b: Seq<usize>, o: O)
    requires
        a.to_multiset() == b.to_multiset(),
        increasing(a, o),
        increasing(b, o),
    ensures
        a == b,
    decreases a.len(),
{
    broadcast use group_to_multiset_ensures;

    assert(a.to_multiset().len() == a.len());
    assert(b.to_multiset().len() == b.len());
    if a.len() == 0 {
        assert(a =~= b);
    } else {
        if a[0] != b[0] {
            assert(a.contains(a[0]));
            assert(b.to_multiset().count(a[0]) > 0);
            assert(b.contains(a[0]));
            let j = choose|j: int| 0 <= j < b.len() && b[j] == a[0];
            assert(b.contains(b[0]));
            assert(a.to_multiset().count(b[0]) > 0);
            assert(a.contains(b[0]));
            let i = choose|i: int| 0 <= i < a.len() && a[i] == b[0];
            assert(o.before(b[0], b[j]));
            assert(o.before(a[0], a[i]));
            o.transitive(a[0], b[0], a[0]);
            o.irreflexive(a[0]);
        }
        let x = a.drop_first();
        let y = b.drop_first();
        lemma_multiset_drop_first(a);
        lemma_multiset_drop_first(b);
        assert(x.to_multiset() =~= a.to_multiset().remove(a[0]));
        assert(y.to_multiset() =~= b.to_multiset().remove(b[0]));
        assert(increasing(x, o)) by {
            assert forall|i: int, j: int| 0 <= i < j < x.len() implies o.before(
                #[trigger] x[i],
                #[trigger] x[j],
            ) by {
                assert(x[i] == a[i + 1]);
                assert(x[j] == a[j + 1]);
            }
        }
        assert(increasing(y, o)) by {
            assert forall|i: int, j: int| 0 <= i < j < y.len() implies o.before(
                #[trigger] y[i],
                #[trigger] y[j],
            ) by {
                assert(y[i] == b[i + 1]);
                assert(y[j] == b[j + 1]);
            }
        }
        lemma_same_multiset_unique(x, y, o);
        assert(a =~= seq![a[0]] + x);
        assert(b =~= seq![b[0]] + y);
    }
}

/// There is only one sorted order of the positions below `n`.
pub proof fn law_sorted_order_is_unique<O: StrictOrder>(a: Seq<usize>, b: Seq<usize>, n: nat, o: O)
    requires
        is_sorted_order(a, n, o),
        is_sorted_order(b, n, o),
    ensures
        a == b,
{
    lemma_same_multiset_unique(a, b, o);
}

/// The order of bytes is that of dictionaries: what goes before comes first, and
/// otherwise the first byte that differs decides.
pub proof fn law_bytes_order_like_words(common: Seq<u8>, a: Seq<u8>, b: Seq<u8>)
    ensures
        lex(common + a, common + b) == lex(a, b),
        b.len() > 0 ==> lex(common, common + b) < 0 < lex(common + b, common),
        a.len() > 0 && b.len() > 0 && a[0] < b[0] ==> lex(common + a, common + b) < 0 < lex(
            common + b,
            common + a,
        ),
        lex(a, a) == 0,
    decreases common.len(), a.len(),
{
    if common.len() > 0 {
        let rest = common.drop_first();
        assert((common + a).drop_first() =~= rest + a);
        assert((common + b).drop_first() =~= rest + b);
        law_bytes_order_like_words(rest, a, b);
    } else {
        assert(common + a =~= a);
        assert(common + b =~= b);
    }
    if common.len() == 0 && a.len() > 0 {
        law_bytes_order_like_words(common, a.drop_first(), a.drop_first());
    } else if common.len() > 0 {
        law_bytes_order_like_words(common.drop_first(), a, b);
    }
}

/// A sorted order leaves nothing out and lists nothing twice.
pub proof fn law_sorted_order_is_complete<O: StrictOrder>(s: Seq<usize>, n: nat, o: O, k: usize)
    requires
        is_sorted_order(s, n, o),
        n <= usize::MAX,
        k < n,
    ensures
        s.len() == n,
        s.contains(k),
        forall|i: int, j: int| 0 <= i < j < s.len() ==> #[trigger] s[i] != #[trigger] s[j],
{
    lemma_sorted_order_range(s, n, o);
    lemma_sorted_order_covers(s, n, o, k);
    assert forall|i: int, j: int| 0 <= i < j < s.len() implies #[trigger] s[i] != #[trigger] s[j] by {
        assert(o.before(s[i], s[j]));
        o.irreflexive(s[i]);
    }
}

} // verus!
