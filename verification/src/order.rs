//! Stable ordering of items by integer keys.
//!
//! Both the change history (oldest change first) and the search results (best
//! score first) are ordered by a key with ties kept in the order they came in.
//! The order is described by the sequence of input positions it visits.
use vstd::prelude::*;

verus! {

/// `order` lists every position below `n` exactly once.
pub open spec fn is_index_permutation(order: Seq<usize>, n: nat) -> bool {
    &&& order.len() == n
    &&& forall|i: int| 0 <= i < order.len() ==> (#[trigger] order[i]) < n
    &&& forall|i: int, j: int|
        0 <= i < j < order.len() ==> #[trigger] order[i] != #[trigger] order[j]
}

/// Position `a` comes strictly before position `b`: its key is smaller, or the
/// keys are equal and `a` stood first.
pub open spec fn key_before(keys: Seq<i64>, a: usize, b: usize) -> bool {
    keys[a as int] < keys[b as int] || (keys[a as int] == keys[b as int] && a < b)
}

/// Visiting positions in `order` goes through keys in ascending order, and
/// positions with equal keys keep their relative order.
pub open spec fn is_stably_sorted(keys: Seq<i64>, order: Seq<usize>) -> bool {
    forall|i: int, j: int|
        0 <= i < j < order.len() ==> key_before(keys, #[trigger] order[i], #[trigger] order[j])
}

/// `order` is the stable ascending order of `keys`.
pub open spec fn is_stable_order(keys: Seq<i64>, order: Seq<usize>) -> bool {
    is_index_permutation(order, keys.len()) && is_stably_sorted(keys, order)
}

/// Inserting position `i` (greater than every position already placed) at the
/// first place whose key exceeds `keys[i]` keeps the order stably sorted.
pub(crate) proof fn lemma_insert_position(keys: Seq<i64>, order: Seq<usize>, pos: int, i: usize)
    requires
        i < keys.len(),
        0 <= pos <= order.len(),
        is_index_permutation(order, i as nat),
        is_stably_sorted(keys, order),
        forall|k: int| 0 <= k < pos ==> keys[order[k] as int] <= keys[i as int],
        pos < order.len() ==> keys[order[pos] as int] > keys[i as int],
    ensures
        is_index_permutation(order.insert(pos, i), (i + 1) as nat),
        is_stably_sorted(keys, order.insert(pos, i)),
{
    let next = order.insert(pos, i);
    assert forall|a: int, b: int| 0 <= a < b < next.len() implies key_before(
        keys,
        #[trigger] next[a],
        #[trigger] next[b],
    ) by {
        if a < pos && b < pos {
            assert(next[a] == order[a] && next[b] == order[b]);
        } else if a < pos && b == pos {
            assert(next[a] == order[a]);
        } else if a < pos {
            assert(next[a] == order[a] && next[b] == order[b - 1]);
        } else if a == pos {
            assert(next[b] == order[b - 1]);
            assert(key_before(keys, order[pos], order[b - 1]) || pos == b - 1);
        } else {
            assert(next[a] == order[a - 1] && next[b] == order[b - 1]);
        }
    }
    assert forall|a: int, b: int| 0 <= a < b < next.len() implies #[trigger] next[a]
        != #[trigger] next[b] by {
        if a < pos && b < pos {
            assert(next[a] == order[a] && next[b] == order[b]);
        } else if a < pos && b == pos {
            assert(next[a] == order[a]);
        } else if a < pos {
            assert(next[a] == order[a] && next[b] == order[b - 1]);
        } else if a == pos {
            assert(next[b] == order[b - 1]);
        } else {
            assert(next[a] == order[a - 1] && next[b] == order[b - 1]);
        }
    }
    assert forall|a: int| 0 <= a < next.len() implies (#[trigger] next[a]) < i + 1 by {
        if a < pos {
            assert(next[a] == order[a]);
        } else if a > pos {
            assert(next[a] == order[a - 1]);
        }
    }
}

/// The first place in `placed` (an order of the positions below `i`) whose key
/// is greater than `keys[i]`, or the end.
fn insertion_point(keys: &Vec<i64>, placed: &Vec<usize>, i: usize) -> (pos: usize)
    requires
        i < keys.len(),
        is_index_permutation(placed@, i as nat),
    ensures
        pos <= placed.len(),
        forall|k: int| 0 <= k < pos ==> keys@[placed@[k] as int] <= keys@[i as int],
        pos < placed.len() ==> keys@[placed@[pos as int] as int] > keys@[i as int],
{
    let mut pos: usize = 0;
    while pos < placed.len()
        invariant
            i < keys.len(),
            is_index_permutation(placed@, i as nat),
            pos <= placed.len(),
            forall|k: int| 0 <= k < pos ==> keys@[placed@[k] as int] <= keys@[i as int],
        decreases placed.len() - pos,
    {
        let at = placed[pos];
        if keys[at] > keys[i] {
            return pos;
        }
        pos = pos + 1;
    }
    pos
}

/// The stable ascending order of `keys`: the input positions, ordered by
/// key, equal keys in the order they came in.
pub fn stable_order(keys: &Vec<i64>) -> (order: Vec<usize>)
    ensures
        is_stable_order(keys@, order@),
{
    let mut order: Vec<usize> = Vec::new();
    let mut i: usize = 0;
    while i < keys.len()
        invariant
            i <= keys.len(),
            is_index_permutation(order@, i as nat),
            is_stably_sorted(keys@, order@),
        decreases keys.len() - i,
    {
        let pos = insertion_point(keys, &order, i);
        proof {
            lemma_insert_position(keys@, order@, pos as int, i);
        }
        order.insert(pos, i);
        i = i + 1;
    }
    order
}

/// A sequence of distinct positions, all below `n`, has at most `n` entries.
proof fn lemma_distinct_positions_bounded(p: Seq<usize>, n: nat)
    requires
        forall|i: int| 0 <= i < p.len() ==> (#[trigger] p[i]) < n,
        forall|i: int, j: int| 0 <= i < j < p.len() ==> #[trigger] p[i] != #[trigger] p[j],
    ensures
        p.len() <= n,
    decreases n,
{
    if p.len() == 0 {
    } else if n == 0 {
        assert(p[0] < n);
    } else if exists|j: int| 0 <= j < p.len() && p[j] == n - 1 {
        let j = choose|j: int| 0 <= j < p.len() && p[j] == n - 1;
        let q = p.remove(j);
        assert forall|i: int| 0 <= i < q.len() implies (#[trigger] q[i]) < (n - 1) as nat by {
            if i < j {
                assert(q[i] == p[i]);
            } else {
                assert(q[i] == p[i + 1]);
            }
        }
        assert forall|a: int, b: int| 0 <= a < b < q.len() implies #[trigger] q[a]
            != #[trigger] q[b] by {
            if b < j {
                assert(q[a] == p[a] && q[b] == p[b]);
            } else if a < j {
                assert(q[a] == p[a] && q[b] == p[b + 1]);
            } else {
                assert(q[a] == p[a + 1] && q[b] == p[b + 1]);
            }
        }
        lemma_distinct_positions_bounded(q, (n - 1) as nat);
    } else {
        assert forall|i: int| 0 <= i < p.len() implies (#[trigger] p[i]) < (n - 1) as nat by {
            assert(p[i] < n && p[i] != n - 1);
        }
        lemma_distinct_positions_bounded(p, (n - 1) as nat);
    }
}

/// Every position below `n` occurs in a permutation of the positions below `n`.
pub proof fn lemma_permutation_covers(order: Seq<usize>, n: nat, x: usize)
    requires
        is_index_permutation(order, n),
        x < n,
    ensures
        exists|j: int| 0 <= j < order.len() && order[j] == x,
{
    if !(exists|j: int| 0 <= j < order.len() && order[j] == x) {
        // Close the gap at `x`: the positions then fit below `n - 1`.
        let shifted = order.map_values(|v: usize| if v > x { (v - 1) as usize } else { v });
        assert forall|i: int| 0 <= i < shifted.len() implies (#[trigger] shifted[i]) < (n
            - 1) as nat by {
            assert(order[i] != x);
        }
        assert forall|a: int, b: int| 0 <= a < b < shifted.len() implies #[trigger] shifted[a]
            != #[trigger] shifted[b] by {
            assert(order[a] != order[b]);
            assert(order[a] != x && order[b] != x);
        }
        lemma_distinct_positions_bounded(shifted, (n - 1) as nat);
    }
}

/// Two stable orders of the same keys are the same order: the stable order of
/// a key sequence is unique.
pub proof fn lemma_stable_order_unique(keys: Seq<i64>, a: Seq<usize>, b: Seq<usize>)
    requires
        is_stable_order(keys, a),
        is_stable_order(keys, b),
    ensures
        a == b,
{
    let n = keys.len();
    if a != b {
        assert(!(a =~= b));
        let k = choose|k: int| 0 <= k < a.len() && a[k] != b[k];
        // Take the first place where the two orders differ.
        let first = choose|f: int|
            0 <= f < a.len() && a[f] != b[f] && forall|g: int| 0 <= g < f ==> a[g] == b[g];
        assert(exists|f: int|
            0 <= f < a.len() && a[f] != b[f] && forall|g: int| 0 <= g < f ==> a[g] == b[g]) by {
            lemma_first_difference(a, b, k);
        }
        lemma_permutation_covers(b, n, a[first]);
        let j = choose|j: int| 0 <= j < b.len() && b[j] == a[first];
        lemma_permutation_covers(a, n, b[first]);
        let i = choose|i: int| 0 <= i < a.len() && a[i] == b[first];
        if j < first {
            assert(a[j] == b[j]);
        }
        if i < first {
            assert(a[i] == b[i]);
        }
        assert(key_before(keys, b[first], b[j]));
        assert(key_before(keys, a[first], a[i]));
    }
}

/// If two sequences of equal length differ at `k`, there is a first place
/// where they differ.
proof fn lemma_first_difference(a: Seq<usize>, b: Seq<usize>, k: int)
    requires
        0 <= k < a.len(),
        a.len() == b.len(),
        a[k] != b[k],
    ensures
        exists|f: int|
            0 <= f < a.len() && a[f] != b[f] && forall|g: int| 0 <= g < f ==> a[g] == b[g],
    decreases k,
{
    if exists|g: int| 0 <= g < k && a[g] != b[g] {
        let g = choose|g: int| 0 <= g < k && a[g] != b[g];
        lemma_first_difference(a, b, g);
    } else {
        assert(forall|g: int| 0 <= g < k ==> a[g] == b[g]);
    }
}

} // verus!
