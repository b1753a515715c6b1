//! Mark and compact, as functions of the stack, the roots and the heap.
//!
//! A root is a position of the stack that holds a live handle. Marking reads
//! the handle at each root; compaction keeps the marked slots and the empty
//! ones, in their order, closes the gaps and refills the end of the heap with
//! empty slots, so that its capacity stays what it was.

use crate::value::{HeapObj, Val};
use vstd::prelude::*;

verus! {

/// Position `p` is a root and holds a handle to slot `h`.
pub open spec fn points_at(stack: Seq<Val>, roots: Set<int>, p: int, h: int) -> bool {
    roots.contains(p) && 0 <= p < stack.len() && stack[p].handle() == Some(h)
}

/// The slots that some root points at.
pub open spec fn marked(stack: Seq<Val>, roots: Set<int>) -> Set<int> {
    Set::new(|h: int| exists|p: int| points_at(stack, roots, p, h))
}

/// Whether compaction keeps slot `i`: it is empty, or some root points at it.
pub open spec fn retained(heap: Seq<HeapObj>, live: Set<int>, i: int) -> bool {
    heap[i] is Empty || live.contains(i)
}

/// The slots below `n` that compaction keeps, in their order.
pub open spec fn survivors(heap: Seq<HeapObj>, live: Set<int>, n: int) -> Seq<HeapObj>
    decreases n,
{
    if n <= 0 {
        Seq::empty()
    } else if retained(heap, live, n - 1) {
        survivors(heap, live, n - 1).push(heap[n - 1])
    } else {
        survivors(heap, live, n - 1)
    }
}

/// How many slots below `n` compaction frees.
pub open spec fn freed_below(heap: Seq<HeapObj>, live: Set<int>, n: int) -> int {
    n - survivors(heap, live, n).len()
}

/// Where compaction moves slot `h`: down by the number of slots freed below
/// it.
pub open spec fn moved_to(heap: Seq<HeapObj>, live: Set<int>, h: int) -> int {
    h - freed_below(heap, live, h)
}

/// The heap after compaction.
pub open spec fn compacted(heap: Seq<HeapObj>, live: Set<int>) -> Seq<HeapObj> {
    survivors(heap, live, heap.len() as int) + Seq::new(
        freed_below(heap, live, heap.len() as int) as nat,
        |i: int| HeapObj::Empty,
    )
}

/// A value after compaction: a handle follows its slot, any other value stays.
pub open spec fn relocated(v: Val, heap: Seq<HeapObj>, live: Set<int>) -> Val {
    match v {
        Val::HeapPtr(h) => Val::HeapPtr(moved_to(heap, live, h as int) as usize),
        _ => v,
    }
}

/// The stack after compaction: the handles at the roots follow their slots.
pub open spec fn rewritten(stack: Seq<Val>, roots: Set<int>, heap: Seq<HeapObj>, live: Set<int>) -> Seq<
    Val,
> {
    Seq::new(
        stack.len(),
        |p: int|
            if roots.contains(p) {
                relocated(stack[p], heap, live)
            } else {
                stack[p]
            },
    )
}

/// Compaction keeps no more slots than there are, and keeps more of a longer
/// prefix.
pub proof fn lemma_survivors_len(heap: Seq<HeapObj>, live: Set<int>, k: int, n: int)
    requires
        0 <= k <= n,
    ensures
        survivors(heap, live, k).len() <= k,
        survivors(heap, live, k).len() <= survivors(heap, live, n).len(),
        freed_below(heap, live, k) <= freed_below(heap, live, n),
    decreases n,
{
    if k < n {
        lemma_survivors_len(heap, live, k, n - 1);
    } else if n > 0 {
        lemma_survivors_len(heap, live, k - 1, n - 1);
    }
}

/// A longer prefix keeps what a shorter one keeps, at the same places.
pub proof fn lemma_survivors_prefix(heap: Seq<HeapObj>, live: Set<int>, k: int, n: int)
    requires
        0 <= k <= n,
    ensures
        survivors(heap, live, k).len() <= survivors(heap, live, n).len(),
        survivors(heap, live, n).subrange(0, survivors(heap, live, k).len() as int) == survivors(
            heap,
            live,
            k,
        ),
    decreases n,
{
    if k < n {
        lemma_survivors_prefix(heap, live, k, n - 1);
        assert(survivors(heap, live, n).subrange(0, survivors(heap, live, k).len() as int)
            =~= survivors(heap, live, k));
    } else {
        assert(survivors(heap, live, n).subrange(0, survivors(heap, live, k).len() as int)
            =~= survivors(heap, live, k));
    }
}

/// A retained slot is found again at the place it moved to.
pub proof fn lemma_survivor_at(heap: Seq<HeapObj>, live: Set<int>, h: int, n: int)
    requires
        0 <= h < n,
        retained(heap, live, h),
    ensures
        0 <= moved_to(heap, live, h) < survivors(heap, live, n).len(),
        survivors(heap, live, n)[moved_to(heap, live, h)] == heap[h],
{
    lemma_survivors_len(heap, live, h, h);
    lemma_survivors_prefix(heap, live, h + 1, n);
    let upto = survivors(heap, live, h + 1);
    assert(upto == survivors(heap, live, h).push(heap[h]));
    assert(survivors(heap, live, n).subrange(0, upto.len() as int)[moved_to(heap, live, h)]
        == upto[moved_to(heap, live, h)]);
}

/// Retained slots keep their order, and no two of them move to one place.
pub proof fn lemma_moved_to_monotone(heap: Seq<HeapObj>, live: Set<int>, g: int, h: int)
    requires
        0 <= g < h,
        retained(heap, live, g),
    ensures
        moved_to(heap, live, g) < moved_to(heap, live, h),
{
    lemma_survivors_len(heap, live, g + 1, h);
}

/// Where every slot from `top` on is empty, nothing is freed from `top` on,
/// and what is kept from there on is empty.
pub proof fn lemma_empty_tail(heap: Seq<HeapObj>, live: Set<int>, top: int, n: int)
    requires
        0 <= top <= n <= heap.len(),
        forall|i: int| top <= i < heap.len() ==> #[trigger] heap[i] is Empty,
    ensures
        freed_below(heap, live, n) == freed_below(heap, live, top),
        survivors(heap, live, n).len() == survivors(heap, live, top).len() + (n - top),
        forall|k: int|
            survivors(heap, live, top).len() <= k < survivors(heap, live, n).len() ==> (
            #[trigger] survivors(heap, live, n)[k]) is Empty,
    decreases n - top,
{
    if top < n {
        lemma_empty_tail(heap, live, top, n - 1);
        assert(heap[n - 1] is Empty);
    }
}

/// Compaction keeps the capacity of the heap.
pub proof fn lemma_compacted_len(heap: Seq<HeapObj>, live: Set<int>)
    ensures
        compacted(heap, live).len() == heap.len(),
{
    lemma_survivors_len(heap, live, heap.len() as int, heap.len() as int);
}

/// A slot below `n` that is neither empty nor marked is freed.
pub proof fn lemma_unmarked_is_freed(heap: Seq<HeapObj>, live: Set<int>, i: int, n: int)
    requires
        0 <= i < n,
        !retained(heap, live, i),
    ensures
        freed_below(heap, live, n) >= 1,
{
    lemma_survivors_len(heap, live, i, i);
    lemma_survivors_len(heap, live, i + 1, n);
}

/// Where no slot below `n` is retained, all of them are freed.
pub proof fn lemma_all_freed(heap: Seq<HeapObj>, live: Set<int>, n: int)
    requires
        0 <= n,
        forall|i: int| 0 <= i < n ==> !#[trigger] retained(heap, live, i),
    ensures
        freed_below(heap, live, n) == n,
    decreases n,
{
    if n > 0 {
        lemma_all_freed(heap, live, n - 1);
        assert(!retained(heap, live, n - 1));
    }
}

/// Where every slot below `n` is retained, none is freed and none moves.
pub proof fn lemma_none_freed(heap: Seq<HeapObj>, live: Set<int>, n: int)
    requires
        0 <= n,
        forall|i: int| 0 <= i < n ==> #[trigger] retained(heap, live, i),
    ensures
        freed_below(heap, live, n) == 0,
    decreases n,
{
    if n > 0 {
        lemma_none_freed(heap, live, n - 1);
        assert(retained(heap, live, n - 1));
    }
}

} // verus!
