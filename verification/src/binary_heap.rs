//! Array-backed binary heaps keyed by an unsigned priority.
//!
//! A heap stores (key, payload) entries in a complete-binary-tree layout:
//! the children of index `i` sit at `2i + 1` and `2i + 2`, and the parent of
//! a non-root index `i` sits at `(i - 1) / 2`.  [`BinaryMinHeap`] keeps the
//! smallest key at the root, [`BinaryMaxHeap`] the largest; both are
//! instances of the one polymorphic contract [`BinaryHeap`], which differs
//! between the two only in the direction of every key comparison.

use vstd::prelude::*;
use vstd::pervasive::VecAdditionalExecFns;

verus! {

/// Failure outcomes reported by the heap operations.
#[derive(Debug)]
pub enum HeapError {
    /// A lookup ran off the occupied range, or the ordering proved that no
    /// match can appear further along the probed path.
    KeyNotFound,
    /// The operation needs at least one stored entry, and none is present.
    HeapEmpty,
}

/// One stored entry: an unsigned priority and its payload.
#[derive(Clone, Copy)]
struct HeapNode<T> {
    key: usize,
    data: T,
}

/// `a` is at least as close to the root as `b` may be: `a <= b` for a
/// min-heap (`min` true), `a >= b` for a max-heap.
pub open spec fn key_le(min: bool, a: usize, b: usize) -> bool {
    if min {
        a <= b
    } else {
        b <= a
    }
}

/// Strict version of [`key_le`]: `a` must sit strictly closer to the root.
pub open spec fn key_lt(min: bool, a: usize, b: usize) -> bool {
    if min {
        a < b
    } else {
        b < a
    }
}

/// The heap-order invariant over a sequence of (key, payload) entries laid
/// out as a complete binary tree: every non-root entry is dominated by its
/// parent under the ordering direction `min`.
pub open spec fn heap_ordered<T>(min: bool, s: Seq<(usize, T)>) -> bool {
    forall|i: int| 1 <= i < s.len() ==> key_le(min, s[(i - 1) / 2].0, (#[trigger] s[i]).0)
}

/// The (key, payload) view of the stored nodes, in array order.
spec fn entries_of<T>(s: Seq<HeapNode<T>>) -> Seq<(usize, T)> {
    s.map_values(|n: HeapNode<T>| (n.key, n.data))
}

/// The single-path lookup that [`BinaryHeap::search`] performs, as a
/// recursive specification: starting at `cur`, report the payload on an
/// exact key match, give up when the target key is strictly more extreme
/// than the current key (heap order rules it out further down), and
/// otherwise step to the right child `2 * cur + 2` while it is in range.
pub open spec fn spec_search<T>(min: bool, s: Seq<(usize, T)>, key: usize, cur: int) -> Option<T>
    decreases s.len() - cur,
{
    if !(0 <= cur < s.len()) {
        None
    } else if s[cur].0 == key {
        Some(s[cur].1)
    } else if key_lt(min, key, s[cur].0) {
        None
    } else if 2 * cur + 2 >= s.len() {
        None
    } else {
        spec_search(min, s, key, 2 * cur + 2)
    }
}

/// The key stored at index `i`.
spec fn nkey<T>(s: Seq<HeapNode<T>>, i: int) -> usize {
    s[i].key
}

/// Heap order over the stored nodes themselves.
spec fn nodes_ordered<T>(min: bool, s: Seq<HeapNode<T>>) -> bool {
    forall|i: int| 1 <= i < s.len() ==> key_le(min, nkey(s, (i - 1) / 2), #[trigger] nkey(s, i))
}

/// Heap order everywhere except possibly between index `x` and its parent.
spec fn ordered_except_at<T>(min: bool, s: Seq<HeapNode<T>>, x: int) -> bool {
    forall|i: int|
        1 <= i < s.len() && i != x ==> key_le(min, nkey(s, (i - 1) / 2), #[trigger] nkey(s, i))
}

/// Heap order everywhere except possibly between index `x` and its children.
spec fn ordered_except_below<T>(min: bool, s: Seq<HeapNode<T>>, x: int) -> bool {
    forall|i: int|
        1 <= i < s.len() && (i - 1) / 2 != x ==> key_le(
            min,
            nkey(s, (i - 1) / 2),
            #[trigger] nkey(s, i),
        )
}

/// The parent of index `x` dominates both children of `x`, so that a swap
/// across either of the two skipped pairs cannot break the order above.
spec fn parent_covers_children<T>(min: bool, s: Seq<HeapNode<T>>, x: int) -> bool {
    forall|c: int|
        0 <= c < s.len() && (c == 2 * x + 1 || c == 2 * x + 2) ==> key_le(
            min,
            nkey(s, (x - 1) / 2),
            #[trigger] nkey(s, c),
        )
}

/// Node-level and entry-level heap order say the same thing.
proof fn lemma_nodes_ordered_iff<T>(min: bool, s: Seq<HeapNode<T>>)
    ensures
        nodes_ordered(min, s) <==> heap_ordered(min, entries_of(s)),
{
    let e = entries_of(s);
    assert(e.len() == s.len());
    if nodes_ordered(min, s) {
        assert forall|i: int| 1 <= i < e.len() implies key_le(
            min,
            e[(i - 1) / 2].0,
            (#[trigger] e[i]).0,
        ) by {
            assert(key_le(min, nkey(s, (i - 1) / 2), nkey(s, i)));
        }
    }
    if heap_ordered(min, e) {
        assert forall|i: int| 1 <= i < s.len() implies key_le(
            min,
            nkey(s, (i - 1) / 2),
            #[trigger] nkey(s, i),
        ) by {
            assert(key_le(min, e[(i - 1) / 2].0, e[i].0));
        }
    }
}

/// Updating one node updates one entry of the view.
proof fn lemma_entries_update<T>(s: Seq<HeapNode<T>>, i: int, n: HeapNode<T>)
    requires
        0 <= i < s.len(),
    ensures
        entries_of(s.update(i, n)) == entries_of(s).update(i, (n.key, n.data)),
{
    assert(entries_of(s.update(i, n)) =~= entries_of(s).update(i, (n.key, n.data)));
}

/// Replacing the entry at `i` by `a` removes the old entry from the bag of
/// contents and adds `a`.
proof fn lemma_ms_update<T>(t: Seq<(usize, T)>, i: int, a: (usize, T))
    requires
        0 <= i < t.len(),
    ensures
        t.update(i, a).to_multiset() == t.to_multiset().remove(t[i]).insert(a),
{
    assert(t.update(i, a) =~= t.remove(i).insert(i, a));
    vstd::seq_lib::to_multiset_remove(t, i);
    vstd::seq_lib::to_multiset_insert(t.remove(i), i, a);
}

/// Swapping two entries leaves the bag of contents unchanged.
proof fn lemma_ms_swap<T>(t: Seq<(usize, T)>, i: int, j: int)
    requires
        0 <= i < t.len(),
        0 <= j < t.len(),
    ensures
        t.update(i, t[j]).update(j, t[i]).to_multiset() == t.to_multiset(),
{
    broadcast use vstd::seq_lib::group_to_multiset_ensures;

    if i == j {
        assert(t.update(i, t[j]).update(j, t[i]) =~= t);
    } else {
        let t1 = t.update(i, t[j]);
        lemma_ms_update(t, i, t[j]);
        lemma_ms_update(t1, j, t[i]);
        assert(t1[j] == t[j]);
        assert(t.contains(t[i]));
        assert(t.contains(t[j]));
        assert(t.to_multiset().count(t[i]) > 0);
        assert(t.to_multiset().count(t[j]) > 0);
        assert(t.update(i, t[j]).update(j, t[i]).to_multiset() =~= t.to_multiset());
    }
}

/// Exec mirror of [`key_lt`].
fn key_before(min: bool, a: usize, b: usize) -> (r: bool)
    ensures
        r == key_lt(min, a, b),
{
    if min {
        a < b
    } else {
        b < a
    }
}

/// Exchanges the entries at indices `i` and `j`.
fn swap_nodes<T: Copy>(heap: &mut Vec<HeapNode<T>>, i: usize, j: usize)
    requires
        i < old(heap)@.len(),
        j < old(heap)@.len(),
    ensures
        final(heap)@ == old(heap)@.update(i as int, old(heap)@[j as int]).update(
            j as int,
            old(heap)@[i as int],
        ),
{
    let a = heap[i];
    let b = heap[j];
    heap.set(i, b);
    heap.set(j, a);
}

/// Percolate-up: restores heap order after the entry at `start` was freshly
/// placed there, by swapping it with its parent while it is strictly more
/// extreme, recomputing the parent index as `(current - 1) / 2` at each
/// level.
fn sift_up<T: Copy>(heap: &mut Vec<HeapNode<T>>, min: bool, start: usize)
    requires
        start < old(heap)@.len(),
        ordered_except_at(min, old(heap)@, start as int),
        start > 0 ==> parent_covers_children(min, old(heap)@, start as int),
    ensures
        final(heap)@.len() == old(heap)@.len(),
        nodes_ordered(min, final(heap)@),
        entries_of(final(heap)@).to_multiset() == entries_of(old(heap)@).to_multiset(),
{
    let ghost orig = heap@;
    let mut cur = start;
    loop
        invariant_except_break
            cur < heap@.len(),
            heap@.len() == orig.len(),
            entries_of(heap@).to_multiset() == entries_of(orig).to_multiset(),
            ordered_except_at(min, heap@, cur as int),
            cur > 0 ==> parent_covers_children(min, heap@, cur as int),
        ensures
            heap@.len() == orig.len(),
            entries_of(heap@).to_multiset() == entries_of(orig).to_multiset(),
            nodes_ordered(min, heap@),
        decreases cur,
    {
        if cur == 0 {
            break;
        }
        let par = (cur - 1) / 2;
        if key_before(min, heap[cur].key, heap[par].key) {
            let ghost pre = heap@;
            swap_nodes(heap, cur, par);
            proof {
                let c = cur as int;
                let p = par as int;
                lemma_entries_update(pre, c, pre[p]);
                lemma_entries_update(pre.update(c, pre[p]), p, pre[c]);
                lemma_ms_swap(entries_of(pre), c, p);
                assert(entries_of(heap@).to_multiset() == entries_of(pre).to_multiset());
                assert forall|i: int|
                    1 <= i < heap@.len() && i != p implies key_le(
                    min,
                    nkey(heap@, (i - 1) / 2),
                    #[trigger] nkey(heap@, i),
                ) by {
                    let q = (i - 1) / 2;
                    if i == c {
                        // the displaced parent now sits below the risen entry
                        assert(key_le(min, nkey(pre, c), nkey(pre, p)));
                    } else if q == c {
                        // a child of the vacated slot, covered by the old grandparent
                        assert(key_le(min, nkey(pre, p), nkey(pre, i)));
                    } else if q == p {
                        // the sibling of the risen entry, by transitivity
                        assert(key_le(min, nkey(pre, p), nkey(pre, i)));
                        assert(key_le(min, nkey(pre, c), nkey(pre, p)));
                    } else {
                        assert(key_le(min, nkey(pre, q), nkey(pre, i)));
                    }
                }
                if p > 0 {
                    assert forall|d: int|
                        0 <= d < heap@.len() && (d == 2 * p + 1 || d == 2 * p + 2) implies key_le(
                        min,
                        nkey(heap@, (p - 1) / 2),
                        #[trigger] nkey(heap@, d),
                    ) by {
                        let g = (p - 1) / 2;
                        assert(g != c && g != p);
                        assert(key_le(min, nkey(pre, g), nkey(pre, p)));
                        if d == c {
                            assert(nkey(heap@, d) == nkey(pre, p));
                        } else {
                            assert(key_le(min, nkey(pre, p), nkey(pre, d)));
                        }
                    }
                }
            }
            cur = par;
        } else {
            proof {
                assert(key_le(min, nkey(heap@, (cur as int - 1) / 2), nkey(heap@, cur as int)));
            }
            break;
        }
    }
}

/// Percolate-down: restores heap order after the entry at `start` was
/// overwritten, by repeatedly finding which of the current entry and its
/// in-range children carries the most extreme key — comparing keys, never
/// raw indices — and swapping the winner upward until the current entry
/// already wins.
fn sift_down<T: Copy>(heap: &mut Vec<HeapNode<T>>, min: bool, start: usize)
    requires
        start < old(heap)@.len(),
        ordered_except_below(min, old(heap)@, start as int),
        start > 0 ==> parent_covers_children(min, old(heap)@, start as int),
    ensures
        final(heap)@.len() == old(heap)@.len(),
        nodes_ordered(min, final(heap)@),
        entries_of(final(heap)@).to_multiset() == entries_of(old(heap)@).to_multiset(),
{
    let ghost orig = heap@;
    let mut cur = start;
    loop
        invariant_except_break
            cur < heap@.len(),
            heap@.len() == orig.len(),
            entries_of(heap@).to_multiset() == entries_of(orig).to_multiset(),
            ordered_except_below(min, heap@, cur as int),
            cur > 0 ==> parent_covers_children(min, heap@, cur as int),
        ensures
            heap@.len() == orig.len(),
            entries_of(heap@).to_multiset() == entries_of(orig).to_multiset(),
            nodes_ordered(min, heap@),
        decreases heap@.len() - cur,
    {
        let n = heap.len();
        if cur >= n / 2 {
            // no children in range: every parent/child pair is already covered
            proof {
                assert forall|i: int| 1 <= i < heap@.len() implies key_le(
                    min,
                    nkey(heap@, (i - 1) / 2),
                    #[trigger] nkey(heap@, i),
                ) by {
                    assert((i - 1) / 2 != cur as int);
                }
            }
            break;
        }
        let left = 2 * cur + 1;
        let right = 2 * cur + 2;
        let mut extreme = cur;
        if key_before(min, heap[left].key, heap[extreme].key) {
            extreme = left;
        }
        if right < n && key_before(min, heap[right].key, heap[extreme].key) {
            extreme = right;
        }
        if extreme == cur {
            // both in-range children are dominated by the current entry
            proof {
                assert forall|i: int| 1 <= i < heap@.len() implies key_le(
                    min,
                    nkey(heap@, (i - 1) / 2),
                    #[trigger] nkey(heap@, i),
                ) by {
                    if (i - 1) / 2 == cur as int {
                        assert(i == left || i == right);
                    }
                }
            }
            break;
        }
        let ghost pre = heap@;
        swap_nodes(heap, cur, extreme);
        proof {
            let c = cur as int;
            let x = extreme as int;
            lemma_entries_update(pre, c, pre[x]);
            lemma_entries_update(pre.update(c, pre[x]), x, pre[c]);
            lemma_ms_swap(entries_of(pre), c, x);
            assert(entries_of(heap@).to_multiset() == entries_of(pre).to_multiset());
            // the chosen child is the most extreme of the compared entries
            assert(key_le(min, nkey(pre, x), nkey(pre, c)));
            assert(left < pre.len() ==> key_le(min, nkey(pre, x), nkey(pre, left as int)));
            assert(right < pre.len() ==> key_le(min, nkey(pre, x), nkey(pre, right as int)));
            assert forall|i: int|
                1 <= i < heap@.len() && (i - 1) / 2 != x implies key_le(
                min,
                nkey(heap@, (i - 1) / 2),
                #[trigger] nkey(heap@, i),
            ) by {
                let q = (i - 1) / 2;
                if i == x {
                    // the sunk entry sits below the risen child
                    assert(key_le(min, nkey(pre, x), nkey(pre, c)));
                } else if q == c && i != x {
                    // the other child of the vacated slot
                    assert(i == left || i == right);
                } else if i == c {
                    // the risen child is covered by the old parent of `cur`
                    assert(key_le(min, nkey(pre, (c - 1) / 2), nkey(pre, x)));
                } else {
                    assert(key_le(min, nkey(pre, q), nkey(pre, i)));
                }
            }
            assert forall|d: int|
                0 <= d < heap@.len() && (d == 2 * x + 1 || d == 2 * x + 2) implies key_le(
                min,
                nkey(heap@, (x - 1) / 2),
                #[trigger] nkey(heap@, d),
            ) by {
                assert((x - 1) / 2 == c);
                assert((d - 1) / 2 == x && (d - 1) / 2 != c);
                assert(key_le(min, nkey(pre, x), nkey(pre, d)));
            }
        }
        cur = extreme;
    }
}

/// In a heap-ordered sequence the root key dominates the key at any index.
pub proof fn lemma_root_extreme<T>(min: bool, s: Seq<(usize, T)>, i: int)
    requires
        heap_ordered(min, s),
        0 <= i < s.len(),
    ensures
        key_le(min, s[0].0, s[i].0),
    decreases i,
{
    if i > 0 {
        lemma_root_extreme(min, s, (i - 1) / 2);
        assert(key_le(min, s[(i - 1) / 2].0, (#[trigger] s[i]).0));
    }
}

/// The root of a heap-ordered sequence carries its most extreme key: the
/// minimum for a min-heap, the maximum for a max-heap.
pub proof fn lemma_root_is_extreme<T>(min: bool, s: Seq<(usize, T)>)
    requires
        heap_ordered(min, s),
        s.len() > 0,
    ensures
        forall|i: int| 0 <= i < s.len() ==> key_le(min, s[0].0, (#[trigger] s[i]).0),
{
    assert forall|i: int| 0 <= i < s.len() implies key_le(min, s[0].0, (#[trigger] s[i]).0) by {
        lemma_root_extreme(min, s, i);
    }
}

/// Extraction order: when one extraction turns a heap-ordered sequence
/// `before` into a heap-ordered sequence `after` holding the same entries
/// minus one occurrence of the old root, the new root key is no more
/// extreme than the old one.  Repeated extractions from a min-heap hence
/// deliver keys in non-decreasing order, and from a max-heap in
/// non-increasing order.
pub proof fn lemma_extraction_order<T>(min: bool, before: Seq<(usize, T)>, after: Seq<(usize, T)>)
    requires
        heap_ordered(min, before),
        heap_ordered(min, after),
        before.len() > 0,
        after.len() > 0,
        after.to_multiset() == before.to_multiset().remove(before[0]),
    ensures
        key_le(min, before[0].0, after[0].0),
{
    broadcast use vstd::seq_lib::group_to_multiset_ensures;
    broadcast use vstd::multiset::group_multiset_axioms;

    assert(after.contains(after[0]));
    assert(after.to_multiset().count(after[0]) > 0);
    assert(before.to_multiset().count(after[0]) > 0);
    assert(before.contains(after[0]));
    let j = choose|j: int| 0 <= j < before.len() && before[j] == after[0];
    lemma_root_extreme(min, before, j);
}

/// A successful single-path lookup reports an entry that the heap holds.
pub proof fn lemma_search_found<T>(min: bool, s: Seq<(usize, T)>, key: usize, cur: int, d: T)
    requires
        spec_search(min, s, key, cur) == Some(d),
    ensures
        exists|i: int| 0 <= i < s.len() && s[i] == (key, d),
    decreases s.len() - cur,
{
    if 0 <= cur < s.len() {
        if s[cur].0 == key {
            assert(s[cur] == (key, d));
        } else if !key_lt(min, key, s[cur].0) && 2 * cur + 2 < s.len() {
            lemma_search_found(min, s, key, 2 * cur + 2, d);
        }
    }
}

/// A key that no entry holds makes the single-path lookup fail.
pub proof fn lemma_search_miss<T>(min: bool, s: Seq<(usize, T)>, key: usize, cur: int)
    requires
        forall|i: int| 0 <= i < s.len() ==> (#[trigger] s[i]).0 != key,
    ensures
        spec_search(min, s, key, cur) is None,
    decreases s.len() - cur,
{
    if 0 <= cur < s.len() {
        if !key_lt(min, key, s[cur].0) && 2 * cur + 2 < s.len() {
            lemma_search_miss(min, s, key, 2 * cur + 2);
        }
    }
}

/// Appends a new entry at index `len` and percolates it up.
fn core_insert<T: Copy>(heap: &mut Vec<HeapNode<T>>, min: bool, data: T, key: usize)
    requires
        nodes_ordered(min, old(heap)@),
        old(heap)@.len() < usize::MAX,
    ensures
        final(heap)@.len() == old(heap)@.len() + 1,
        nodes_ordered(min, final(heap)@),
        entries_of(final(heap)@).to_multiset() == entries_of(old(heap)@).to_multiset().insert(
            (key, data),
        ),
{
    let ghost orig = heap@;
    heap.push(HeapNode { key, data });
    proof {
        broadcast use vstd::seq_lib::group_to_multiset_ensures;

        assert(entries_of(heap@) =~= entries_of(orig).push((key, data)));
        let m = orig.len() as int;
        assert forall|i: int|
            1 <= i < heap@.len() && i != m implies key_le(
            min,
            nkey(heap@, (i - 1) / 2),
            #[trigger] nkey(heap@, i),
        ) by {
            assert(key_le(min, nkey(orig, (i - 1) / 2), #[trigger] nkey(orig, i)));
        }
    }
    let idx = heap.len() - 1;
    sift_up(heap, min, idx);
}

/// Removes and returns the root entry, moving the last entry into its slot
/// and percolating that entry down.
fn core_extract<T: Copy>(heap: &mut Vec<HeapNode<T>>, min: bool) -> (r: Option<T>)
    requires
        nodes_ordered(min, old(heap)@),
    ensures
        old(heap)@.len() == 0 ==> r is None && final(heap)@ == old(heap)@,
        old(heap)@.len() > 0 ==> {
            &&& r == Some(old(heap)@[0].data)
            &&& final(heap)@.len() == old(heap)@.len() - 1
            &&& nodes_ordered(min, final(heap)@)
            &&& entries_of(final(heap)@).to_multiset() == entries_of(old(heap)@).to_multiset()
                .remove(entries_of(old(heap)@)[0])
        },
{
    if heap.len() == 0 {
        return None;
    }
    let ghost orig = heap@;
    let node = heap.swap_remove(0);
    proof {
        broadcast use vstd::seq_lib::group_to_multiset_ensures;
        broadcast use vstd::multiset::group_multiset_axioms;

        let t = entries_of(orig);
        lemma_entries_update(orig, 0, orig.last());
        assert(t.last() == (orig.last().key, orig.last().data));
        let u = t.update(0, t.last());
        assert(entries_of(heap@) =~= u.drop_last());
        if orig.len() == 1 {
            assert(u =~= t);
            assert(t =~= Seq::<(usize, T)>::empty().push(t[0]));
            assert(entries_of(heap@).to_multiset() =~= t.to_multiset().remove(t[0]));
        } else {
            lemma_ms_update(t, 0, t.last());
            assert(u =~= entries_of(heap@).push(t.last()));
            assert(u.to_multiset() == entries_of(heap@).to_multiset().insert(t.last()));
            assert(t.contains(t[0]));
            let a = entries_of(heap@).to_multiset();
            let b = t.to_multiset().remove(t[0]);
            assert forall|x: (usize, T)| a.count(x) == b.count(x) by {
                assert(a.insert(t.last()).count(x) == b.insert(t.last()).count(x));
            }
            assert(a =~= b);
        }
    }
    if heap.len() > 1 {
        proof {
            assert forall|i: int|
                1 <= i < heap@.len() && (i - 1) / 2 != 0 implies key_le(
                min,
                nkey(heap@, (i - 1) / 2),
                #[trigger] nkey(heap@, i),
            ) by {
                assert(key_le(min, nkey(orig, (i - 1) / 2), #[trigger] nkey(orig, i)));
            }
        }
        sift_down(heap, min, 0);
    }
    Some(node.data)
}

/// Compares the candidate against the root: hands the candidate straight
/// back when it would become the new root, and otherwise returns the old
/// root's payload, installs the candidate in the root slot and percolates
/// it down.
fn core_insert_extract<T: Copy>(heap: &mut Vec<HeapNode<T>>, min: bool, data: T, key: usize) -> (r:
    T)
    requires
        nodes_ordered(min, old(heap)@),
        old(heap)@.len() > 0,
    ensures
        final(heap)@.len() == old(heap)@.len(),
        nodes_ordered(min, final(heap)@),
        key_le(min, key, nkey(old(heap)@, 0)) ==> r == data && final(heap)@ == old(heap)@,
        !key_le(min, key, nkey(old(heap)@, 0)) ==> {
            &&& r == old(heap)@[0].data
            &&& entries_of(final(heap)@).to_multiset() == entries_of(old(heap)@).to_multiset()
                .remove(entries_of(old(heap)@)[0]).insert((key, data))
        },
{
    if !key_before(min, heap[0].key, key) {
        return data;
    }
    let ghost orig = heap@;
    let mut node = HeapNode { key, data };
    heap.set_and_swap(0, &mut node);
    proof {
        lemma_entries_update(orig, 0, HeapNode { key: key, data: data });
        lemma_ms_update(entries_of(orig), 0, (key, data));
        assert forall|i: int|
            1 <= i < heap@.len() && (i - 1) / 2 != 0 implies key_le(
            min,
            nkey(heap@, (i - 1) / 2),
            #[trigger] nkey(heap@, i),
        ) by {
            assert(key_le(min, nkey(orig, (i - 1) / 2), #[trigger] nkey(orig, i)));
        }
    }
    sift_down(heap, min, 0);
    node.data
}

/// The restricted single-path lookup along the right spine.
fn core_search<T: Copy>(heap: &Vec<HeapNode<T>>, min: bool, key: usize) -> (r: Option<T>)
    requires
        heap@.len() > 0,
    ensures
        r == spec_search(min, entries_of(heap@), key, 0),
{
    let ghost s = entries_of(heap@);
    let mut cur: usize = 0;
    loop
        invariant
            cur < heap@.len(),
            s == entries_of(heap@),
            spec_search(min, s, key, 0) == spec_search(min, s, key, cur as int),
        decreases heap@.len() - cur,
    {
        let n = heap.len();
        if heap[cur].key == key {
            return Some(heap[cur].data);
        }
        if key_before(min, key, heap[cur].key) {
            return None;
        }
        if cur > (usize::MAX - 2) / 2 {
            // the right child index would exceed every possible length
            return None;
        }
        let next = 2 * cur + 2;
        if next >= n {
            return None;
        }
        cur = next;
    }
}

/// What [`BinaryHeap::search`] reports for a heap with the given entries:
/// `HeapEmpty` on an empty heap, otherwise the outcome of the single-path
/// descent from the root.
pub open spec fn search_result<T>(min: bool, s: Seq<(usize, T)>, key: usize) -> Result<
    T,
    HeapError,
> {
    if s.len() == 0 {
        Err(HeapError::HeapEmpty)
    } else {
        match spec_search(min, s, key, 0) {
            Some(d) => Ok(d),
            None => Err(HeapError::KeyNotFound),
        }
    }
}

/// The one polymorphic contract shared by the min and the max heap; the two
/// instances differ only in the direction of every key comparison, reported
/// by [`BinaryHeap::min_order`].
pub trait BinaryHeap<T>: Sized {
    /// True for the min-heap instance, where the root carries the smallest
    /// key; false for the max-heap instance, where it carries the largest.
    spec fn min_order(&self) -> bool;

    /// The structural invariant; every operation requires and preserves it.
    spec fn valid(&self) -> bool;

    /// The stored (key, payload) entries, in array order.
    spec fn entries(&self) -> Seq<(usize, T)>;

    /// A valid heap satisfies the heap-order invariant: no entry's key is
    /// more extreme than the key of its parent.
    proof fn ordering_invariant(&self)
        requires
            self.valid(),
        ensures
            heap_ordered(self.min_order(), self.entries()),
    ;

    /// Appends a new entry at index `len` and percolates it up; never
    /// fails, and grows the heap by exactly the given entry.
    fn insert(&mut self, data: T, key: usize)
        requires
            old(self).valid(),
            old(self).entries().len() < usize::MAX,
        ensures
            final(self).valid(),
            final(self).min_order() == old(self).min_order(),
            final(self).entries().len() == old(self).entries().len() + 1,
            final(self).entries().to_multiset() == old(self).entries().to_multiset().insert(
                (key, data),
            ),
    ;

    /// Removes and returns the root payload — the most extreme entry — or
    /// fails with `HeapEmpty` on an empty heap, leaving it untouched.
    fn extract(&mut self) -> (r: Result<T, HeapError>)
        requires
            old(self).valid(),
        ensures
            final(self).valid(),
            final(self).min_order() == old(self).min_order(),
            old(self).entries().len() == 0 ==> r == Err::<T, HeapError>(HeapError::HeapEmpty)
                && final(self).entries() == old(self).entries(),
            old(self).entries().len() > 0 ==> {
                &&& r == Ok::<T, HeapError>(old(self).entries()[0].1)
                &&& final(self).entries().len() == old(self).entries().len() - 1
                &&& final(self).entries().to_multiset() == old(self).entries().to_multiset()
                    .remove(old(self).entries()[0])
                &&& forall|i: int|
                    0 <= i < old(self).entries().len() ==> key_le(
                        old(self).min_order(),
                        old(self).entries()[0].0,
                        (#[trigger] old(self).entries()[i]).0,
                    )
            },
    ;

    /// Compares the candidate against the root under the variant ordering.
    /// When the candidate would become the new root it is handed straight
    /// back and the heap stays untouched; otherwise the old root's payload
    /// is returned and the candidate takes its slot before percolating
    /// down.  The heap holds exactly as many entries afterwards as before.
    fn insert_extract(&mut self, data: T, key: usize) -> (r: Result<T, HeapError>)
        requires
            old(self).valid(),
        ensures
            final(self).valid(),
            final(self).min_order() == old(self).min_order(),
            final(self).entries().len() == old(self).entries().len(),
            old(self).entries().len() == 0 ==> r == Err::<T, HeapError>(HeapError::HeapEmpty)
                && final(self).entries() == old(self).entries(),
            old(self).entries().len() > 0 && key_le(
                old(self).min_order(),
                key,
                old(self).entries()[0].0,
            ) ==> r == Ok::<T, HeapError>(data) && final(self).entries() == old(self).entries(),
            old(self).entries().len() > 0 && !key_le(
                old(self).min_order(),
                key,
                old(self).entries()[0].0,
            ) ==> {
                &&& r == Ok::<T, HeapError>(old(self).entries()[0].1)
                &&& final(self).entries().to_multiset() == old(self).entries().to_multiset()
                    .remove(old(self).entries()[0]).insert((key, data))
            },
    ;

    /// Looks a key up along the single root-to-right-spine path, as
    /// [`spec_search`] describes; this is not a general whole-tree search.
    fn search(&self, key: usize) -> (r: Result<T, HeapError>)
        requires
            self.valid(),
        ensures
            r == search_result(self.min_order(), self.entries(), key),
    ;

    /// The number of stored entries.
    fn size(&self) -> (r: usize)
        requires
            self.valid(),
        ensures
            r == self.entries().len(),
    ;

    /// True exactly when no entry is stored.
    fn is_empty(&self) -> (r: bool)
        requires
            self.valid(),
        ensures
            r <==> self.entries().len() == 0,
    ;
}

/// An array-backed binary heap whose root carries the smallest key.
pub struct BinaryMinHeap<T> {
    heap: Vec<HeapNode<T>>,
    size: usize,
}

impl<T> View for BinaryMinHeap<T> {
    type V = Seq<(usize, T)>;

    closed spec fn view(&self) -> Seq<(usize, T)> {
        entries_of(self.heap@)
    }
}

impl<T> BinaryMinHeap<T> {
    /// Structural invariant: the mirrored length counter agrees with the
    /// backing storage, and the entries satisfy min-heap order.
    pub closed spec fn wf(&self) -> bool {
        self.size == self.heap@.len() && heap_ordered(true, self@)
    }

    /// Creates an empty min-heap; `size` is only a capacity hint for the
    /// backing storage.
    pub fn new(size: Option<usize>) -> (h: Self)
        ensures
            h.wf(),
            h@ == Seq::<(usize, T)>::empty(),
    {
        let h = match size {
            None => BinaryMinHeap { heap: Vec::with_capacity(100), size: 0 },
            Some(cap) => BinaryMinHeap { heap: Vec::with_capacity(cap), size: 0 },
        };
        proof {
            assert(h@ =~= Seq::<(usize, T)>::empty());
        }
        h
    }
}

impl<T: Copy> BinaryHeap<T> for BinaryMinHeap<T> {
    open spec fn min_order(&self) -> bool {
        true
    }

    open spec fn valid(&self) -> bool {
        self.wf()
    }

    open spec fn entries(&self) -> Seq<(usize, T)> {
        self@
    }

    proof fn ordering_invariant(&self) {
    }

    fn insert(&mut self, data: T, key: usize) {
        proof {
            lemma_nodes_ordered_iff(true, self.heap@);
        }
        core_insert(&mut self.heap, true, data, key);
        self.size = self.size + 1;
        proof {
            lemma_nodes_ordered_iff(true, self.heap@);
        }
    }

    fn extract(&mut self) -> (r: Result<T, HeapError>) {
        proof {
            lemma_nodes_ordered_iff(true, self.heap@);
        }
        match core_extract(&mut self.heap, true) {
            None => Err(HeapError::HeapEmpty),
            Some(data) => {
                self.size = self.size - 1;
                proof {
                    lemma_nodes_ordered_iff(true, self.heap@);
                    lemma_root_is_extreme(true, old(self)@);
                }
                Ok(data)
            },
        }
    }

    fn insert_extract(&mut self, data: T, key: usize) -> (r: Result<T, HeapError>) {
        if self.size == 0 {
            return Err(HeapError::HeapEmpty);
        }
        proof {
            lemma_nodes_ordered_iff(true, self.heap@);
        }
        let out = core_insert_extract(&mut self.heap, true, data, key);
        proof {
            lemma_nodes_ordered_iff(true, self.heap@);
        }
        Ok(out)
    }

    fn search(&self, key: usize) -> (r: Result<T, HeapError>) {
        if self.size == 0 {
            return Err(HeapError::HeapEmpty);
        }
        match core_search(&self.heap, true, key) {
            Some(data) => Ok(data),
            None => Err(HeapError::KeyNotFound),
        }
    }

    fn size(&self) -> (r: usize) {
        self.size
    }

    fn is_empty(&self) -> (r: bool) {
        self.size == 0
    }
}

/// An array-backed binary heap whose root carries the largest key.
pub struct BinaryMaxHeap<T> {
    heap: Vec<HeapNode<T>>,
    size: usize,
}

impl<T> View for BinaryMaxHeap<T> {
    type V = Seq<(usize, T)>;

    closed spec fn view(&self) -> Seq<(usize, T)> {
        entries_of(self.heap@)
    }
}

impl<T> BinaryMaxHeap<T> {
    /// Structural invariant: the mirrored length counter agrees with the
    /// backing storage, and the entries satisfy max-heap order.
    pub closed spec fn wf(&self) -> bool {
        self.size == self.heap@.len() && heap_ordered(false, self@)
    }

    /// Creates an empty max-heap; `size` is only a capacity hint for the
    /// backing storage.
    pub fn new(size: Option<usize>) -> (h: Self)
        ensures
            h.wf(),
            h@ == Seq::<(usize, T)>::empty(),
    {
        let h = match size {
            None => BinaryMaxHeap { heap: Vec::with_capacity(100), size: 0 },
            Some(cap) => BinaryMaxHeap { heap: Vec::with_capacity(cap), size: 0 },
        };
        proof {
            assert(h@ =~= Seq::<(usize, T)>::empty());
        }
        h
    }
}

impl<T: Copy> BinaryHeap<T> for BinaryMaxHeap<T> {
    open spec fn min_order(&self) -> bool {
        false
    }

    open spec fn valid(&self) -> bool {
        self.wf()
    }

    open spec fn entries(&self) -> Seq<(usize, T)> {
        self@
    }

    proof fn ordering_invariant(&self) {
    }

    fn insert(&mut self, data: T, key: usize) {
        proof {
            lemma_nodes_ordered_iff(false, self.heap@);
        }
        core_insert(&mut self.heap, false, data, key);
        self.size = self.size + 1;
        proof {
            lemma_nodes_ordered_iff(false, self.heap@);
        }
    }

    fn extract(&mut self) -> (r: Result<T, HeapError>) {
        proof {
            lemma_nodes_ordered_iff(false, self.heap@);
        }
        match core_extract(&mut self.heap, false) {
            None => Err(HeapError::HeapEmpty),
            Some(data) => {
                self.size = self.size - 1;
                proof {
                    lemma_nodes_ordered_iff(false, self.heap@);
                    lemma_root_is_extreme(false, old(self)@);
                }
                Ok(data)
            },
        }
    }

    fn insert_extract(&mut self, data: T, key: usize) -> (r: Result<T, HeapError>) {
        if self.size == 0 {
            return Err(HeapError::HeapEmpty);
        }
        proof {
            lemma_nodes_ordered_iff(false, self.heap@);
        }
        let out = core_insert_extract(&mut self.heap, false, data, key);
        proof {
            lemma_nodes_ordered_iff(false, self.heap@);
        }
        Ok(out)
    }

    fn search(&self, key: usize) -> (r: Result<T, HeapError>) {
        if self.size == 0 {
            return Err(HeapError::HeapEmpty);
        }
        match core_search(&self.heap, false, key) {
            Some(data) => Ok(data),
            None => Err(HeapError::KeyNotFound),
        }
    }

    fn size(&self) -> (r: usize) {
        self.size
    }

    fn is_empty(&self) -> (r: bool) {
        self.size == 0
    }
}

} // verus!
