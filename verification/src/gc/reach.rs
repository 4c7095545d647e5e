//! Reachability: which objects the roots lead to.
use crate::gc::heap::{live_at, Heap};
use crate::gc::trace::Trace;
use crate::object::tagged::GcObj;
use vstd::prelude::*;

verus! {

/// Whether one of the references in `seeds` refers to the object in slot
/// `i`.
pub open spec fn seeded(h: Heap, seeds: Set<GcObj>, i: int) -> bool {
    live_at(h, i) && exists|o: GcObj| #[trigger] seeds.contains(o) && o.target() == Some(i)
}

/// Whether the object in slot `i` holds a reference to the object in slot
/// `j`.
pub open spec fn edge(h: Heap, i: int, j: int) -> bool {
    live_at(h, i) && live_at(h, j) && exists|o: GcObj| #[trigger]
        h[i].unwrap().refs().contains(o) && o.target() == Some(j)
}

/// Whether `p` is a chain of objects that starts at one that `seeds`
/// refers to, each holding a reference to the next.
pub open spec fn is_path(h: Heap, seeds: Set<GcObj>, p: Seq<int>) -> bool {
    &&& p.len() > 0
    &&& seeded(h, seeds, p[0])
    &&& forall|k: int| #![trigger p[k]] 0 <= k < p.len() - 1 ==> edge(h, p[k], p[k + 1])
}

/// Whether the object in slot `j` can be reached from the references in
/// `seeds`.
pub open spec fn reachable(h: Heap, seeds: Set<GcObj>, j: int) -> bool {
    exists|p: Seq<int>| #[trigger] is_path(h, seeds, p) && p.last() == j
}

/// What a seed refers to is reachable.
pub proof fn lemma_reach_seed(h: Heap, seeds: Set<GcObj>, o: GcObj, i: int)
    requires
        seeds.contains(o),
        o.target() == Some(i),
        live_at(h, i),
    ensures
        reachable(h, seeds, i),
{
    let p = seq![i];
    assert(is_path(h, seeds, p));
    assert(p.last() == i);
}

/// What a reachable object refers to is reachable.
pub proof fn lemma_reach_step(h: Heap, seeds: Set<GcObj>, i: int, j: int)
    requires
        reachable(h, seeds, i),
        edge(h, i, j),
    ensures
        reachable(h, seeds, j),
{
    let p = choose|p: Seq<int>| #[trigger] is_path(h, seeds, p) && p.last() == i;
    let q = p.push(j);
    assert forall|k: int| #![trigger q[k]] 0 <= k < q.len() - 1 implies edge(h, q[k], q[k + 1]) by {
        if k < p.len() - 1 {
            assert(q[k] == p[k]);
            assert(q[k + 1] == p[k + 1]);
        } else {
            assert(q[k] == i);
            assert(q[k + 1] == j);
        }
    }
    assert(q[0] == p[0]);
    assert(is_path(h, seeds, q));
    assert(q.last() == j);
}

/// Only live objects are reachable.
pub proof fn lemma_reach_live(h: Heap, seeds: Set<GcObj>, j: int)
    requires
        reachable(h, seeds, j),
    ensures
        live_at(h, j),
{
    let p = choose|p: Seq<int>| #[trigger] is_path(h, seeds, p) && p.last() == j;
    if p.len() > 1 {
        let k = p.len() - 2;
        assert(edge(h, p[k], p[k + 1]));
    }
}

/// Every object of a path lies in a set that holds what the seeds refer
/// to and is closed under references.
proof fn lemma_path_in_closed(h: Heap, seeds: Set<GcObj>, m: Set<int>, p: Seq<int>, k: int)
    requires
        is_path(h, seeds, p),
        0 <= k < p.len(),
        forall|i: int| seeded(h, seeds, i) ==> m.contains(i),
        forall|i: int, j: int| m.contains(i) && #[trigger] edge(h, i, j) ==> m.contains(j),
    ensures
        m.contains(p[k]),
    decreases k,
{
    if k > 0 {
        lemma_path_in_closed(h, seeds, m, p, k - 1);
        assert(edge(h, p[k - 1], p[k - 1 + 1]));
    }
}

/// A set that holds what the seeds refer to and is closed under
/// references holds every reachable object.
pub proof fn lemma_closed_holds_reachable(h: Heap, seeds: Set<GcObj>, m: Set<int>)
    requires
        forall|i: int| seeded(h, seeds, i) ==> m.contains(i),
        forall|i: int, j: int| m.contains(i) && #[trigger] edge(h, i, j) ==> m.contains(j),
    ensures
        forall|j: int| reachable(h, seeds, j) ==> m.contains(j),
{
    assert forall|j: int| reachable(h, seeds, j) implies m.contains(j) by {
        let p = choose|p: Seq<int>| #[trigger] is_path(h, seeds, p) && p.last() == j;
        lemma_path_in_closed(h, seeds, m, p, p.len() - 1);
    }
}

/// Whether two heaps hold objects in the same slots, with the same
/// references leaving them.
pub open spec fn same_graph(a: Heap, b: Heap) -> bool {
    &&& a.len() == b.len()
    &&& forall|i: int| 0 <= i < a.len() ==> (a[i] is Some <==> b[i] is Some)
    &&& forall|i: int| live_at(a, i) ==> (#[trigger] a[i]).unwrap().refs() == b[i].unwrap().refs()
}

/// Reachability depends only on where the objects are and what they refer
/// to.
pub proof fn lemma_reach_same_graph(a: Heap, b: Heap, seeds: Set<GcObj>, j: int)
    requires
        same_graph(a, b),
        reachable(a, seeds, j),
    ensures
        reachable(b, seeds, j),
{
    let p = choose|p: Seq<int>| #[trigger] is_path(a, seeds, p) && p.last() == j;
    assert(seeded(b, seeds, p[0]));
    assert forall|k: int| #![trigger p[k]] 0 <= k < p.len() - 1 implies edge(b, p[k], p[k + 1]) by {
        assert(edge(a, p[k], p[k + 1]));
        let o = choose|o: GcObj| #[trigger]
            a[p[k]].unwrap().refs().contains(o) && o.target() == Some(p[k + 1]);
        assert(b[p[k]].unwrap().refs().contains(o));
    }
    assert(is_path(b, seeds, p));
}

} // verus!
