//! Stable ranking: the order in which items come out when the best key goes
//! first and equal keys keep the order they were stored in.

use vstd::prelude::*;

verus! {

/// A key by which items are ranked. `outranks` is a strict weak order.
pub trait RankKey: Sized {
    /// Whether `self` comes strictly ahead of `other`.
    spec fn outranks(&self, other: &Self) -> bool;

    /// Decides `outranks`.
    fn ranks_ahead(&self, other: &Self) -> (b: bool)
        ensures
            b == self.outranks(other),
    ;

    /// `outranks` is irreflexive and transitive, and so is its complement.
    proof fn lemma_strict_weak_order(a: &Self, b: &Self, c: &Self)
        ensures
            !a.outranks(a),
            a.outranks(b) && b.outranks(c) ==> a.outranks(c),
            !a.outranks(b) && !b.outranks(c) ==> !a.outranks(c),
    ;
}

/// Whether position `i` comes before position `j` in the ranking of `keys`:
/// its key outranks the other, or neither outranks and `i` was stored first.
pub open spec fn precedes<K: RankKey>(keys: Seq<K>, i: int, j: int) -> bool {
    keys[i].outranks(&keys[j]) || (!keys[j].outranks(&keys[i]) && i < j)
}

/// Whether `x` stands somewhere in `order`.
pub open spec fn listed(order: Seq<usize>, x: int) -> bool {
    exists|a: int| 0 <= a < order.len() && #[trigger] order[a] == x
}

/// Whether `order` lists each position below `n` exactly once.
pub open spec fn is_permutation(order: Seq<usize>, n: nat) -> bool {
    &&& order.len() == n
    &&& forall|a: int| 0 <= a < order.len() ==> (#[trigger] order[a]) < n
    &&& forall|a: int, b: int|
        0 <= a < b < order.len() ==> (#[trigger] order[a]) != (#[trigger] order[b])
    &&& forall|x: int| 0 <= x < n ==> #[trigger] listed(order, x)
}

/// Whether `order` is the ranking of the first `n` positions of `keys`.
pub open spec fn ranks_prefix<K: RankKey>(keys: Seq<K>, n: nat, order: Seq<usize>) -> bool {
    &&& is_permutation(order, n)
    &&& forall|a: int, b: int|
        0 <= a < b < order.len() ==> precedes(keys, #[trigger] order[a] as int, #[trigger] order[b] as int)
}

/// Whether `order` is the ranking of `keys`: every position once, best key
/// first, equal keys in stored order. There is exactly one such order.
pub open spec fn is_ranking<K: RankKey>(keys: Seq<K>, order: Seq<usize>) -> bool {
    ranks_prefix(keys, keys.len(), order)
}

/// Ranks the positions of `keys`.
pub fn rank<K: RankKey>(keys: &Vec<K>) -> (order: Vec<usize>)
    ensures
        is_ranking(keys@, order@),
{
    let n = keys.len();
    let mut order: Vec<usize> = Vec::new();
    let mut i: usize = 0;
    while i < n
        invariant
            i <= n,
            n == keys@.len(),
            ranks_prefix(keys@, i as nat, order@),
        decreases n - i,
    {
        let mut pos: usize = order.len();
        while pos > 0 && keys[i].ranks_ahead(&keys[order[pos - 1]])
            invariant
                pos <= order@.len(),
                order@.len() == i,
                i < n,
                n == keys@.len(),
                ranks_prefix(keys@, i as nat, order@),
                forall|k: int|
                    pos <= k < order@.len() ==> keys@[i as int].outranks(
                        &keys@[#[trigger] order@[k] as int],
                    ),
            decreases pos,
        {
            pos -= 1;
        }
        let ghost before = order@;
        order.insert(pos, i);
        proof {
            let after = order@;
            assert forall|a: int| 0 <= a < after.len() implies (#[trigger] after[a]) < i + 1 by {
                if a < pos {
                    assert(after[a] == before[a]);
                } else if a > pos {
                    assert(after[a] == before[a - 1]);
                }
            }
            assert forall|x: int| 0 <= x < i + 1 implies #[trigger] listed(after, x) by {
                if x == i {
                    assert(after[pos as int] == x);
                } else {
                    assert(listed(before, x));
                    let a0 = choose|a: int| 0 <= a < before.len() && #[trigger] before[a] == x;
                    if a0 < pos {
                        assert(after[a0] == x);
                    } else {
                        assert(after[a0 + 1] == x);
                    }
                }
            }
            assert forall|a: int, b: int| 0 <= a < b < after.len() implies (#[trigger] after[a])
                != (#[trigger] after[b]) && precedes(keys@, after[a] as int, after[b] as int) by {
                let x = if a < pos { before[a] } else if a == pos { i } else { before[a - 1] };
                let y = if b < pos { before[b] } else if b == pos { i } else { before[b - 1] };
                assert(after[a] == x && after[b] == y);
                if b == pos {
                    // x is stored before i and i does not outrank it
                    let last = before[pos - 1];
                    assert(!keys@[i as int].outranks(&keys@[last as int]));
                    if a < pos - 1 {
                        assert(precedes(keys@, before[a] as int, before[pos - 1] as int));
                        K::lemma_strict_weak_order(
                            &keys@[i as int],
                            &keys@[x as int],
                            &keys@[last as int],
                        );
                        K::lemma_strict_weak_order(
                            &keys@[i as int],
                            &keys@[last as int],
                            &keys@[x as int],
                        );
                    }
                } else if a == pos {
                    assert(keys@[i as int].outranks(&keys@[before[b - 1] as int]));
                } else {
                    let a0 = if a < pos { a } else { a - 1 };
                    let b0 = if b < pos { b } else { b - 1 };
                    assert(precedes(keys@, before[a0] as int, before[b0] as int));
                }
            }
        }
        i += 1;
    }
    order
}

/// Whether `order` lists each position below `n` exactly once, with
/// `before` holding of each position and every later one.
pub open spec fn in_order(before: spec_fn(int, int) -> bool, n: nat, order: Seq<usize>) -> bool {
    &&& is_permutation(order, n)
    &&& forall|a: int, b: int|
        0 <= a < b < order.len() ==> before(#[trigger] order[a] as int, #[trigger] order[b] as int)
}

/// Whether `before` never holds of two different positions both ways.
pub open spec fn one_way(before: spec_fn(int, int) -> bool, n: nat) -> bool {
    forall|x: int, y: int|
        0 <= x < n && 0 <= y < n && x != y ==> !(#[trigger] before(x, y) && #[trigger] before(y, x))
}

/// Two orders by one relation agree up to position `k`.
proof fn lemma_orders_agree(
    before: spec_fn(int, int) -> bool,
    n: nat,
    o1: Seq<usize>,
    o2: Seq<usize>,
    k: int,
)
    requires
        in_order(before, n, o1),
        in_order(before, n, o2),
        one_way(before, n),
        0 <= k < n,
    ensures
        forall|i: int| 0 <= i <= k ==> o1[i] == o2[i],
    decreases k,
{
    if k > 0 {
        lemma_orders_agree(before, n, o1, o2, k - 1);
    }
    let x = o1[k];
    let y = o2[k];
    if x != y {
        assert(listed(o2, x as int));
        let a = choose|a: int| 0 <= a < o2.len() && #[trigger] o2[a] == x;
        assert(listed(o1, y as int));
        let b = choose|b: int| 0 <= b < o1.len() && #[trigger] o1[b] == y;
        if a < k {
            assert(o1[a] == o2[a]);
        }
        if b < k {
            assert(o2[b] == o1[b]);
        }
        assert(before(o2[k] as int, o2[a] as int));
        assert(before(o1[k] as int, o1[b] as int));
    }
}

/// There is one order by a relation that never holds both ways.
pub proof fn lemma_order_unique(
    before: spec_fn(int, int) -> bool,
    n: nat,
    o1: Seq<usize>,
    o2: Seq<usize>,
)
    requires
        in_order(before, n, o1),
        in_order(before, n, o2),
        one_way(before, n),
    ensures
        o1 == o2,
{
    if n > 0 {
        lemma_orders_agree(before, n, o1, o2, n - 1);
    }
    assert(o1 =~= o2);
}

/// The ranking of keys is unique.
pub proof fn lemma_ranking_unique<K: RankKey>(keys: Seq<K>, o1: Seq<usize>, o2: Seq<usize>)
    requires
        is_ranking(keys, o1),
        is_ranking(keys, o2),
    ensures
        o1 == o2,
{
    let before = |i: int, j: int| precedes(keys, i, j);
    assert forall|x: int, y: int| 0 <= x < keys.len() && 0 <= y < keys.len() && x != y implies !(
    #[trigger] before(x, y) && #[trigger] before(y, x)) by {
        K::lemma_strict_weak_order(&keys[x], &keys[y], &keys[x]);
        K::lemma_strict_weak_order(&keys[y], &keys[x], &keys[y]);
    }
    lemma_order_unique(before, keys.len(), o1, o2);
}

} // verus!
