//! The collector: the mark phase, driven by a work stack, and the sweep.
use crate::gc::heap::{free_slots, lemma_same_shape, live_at, marked_at, Block, Heap};
use crate::gc::reach::{
    edge, lemma_closed_holds_reachable, lemma_reach_same_graph, lemma_reach_seed,
    lemma_reach_step, reachable, same_graph, seeded,
};
use crate::gc::trace::{pushed_from, traced, GcState, Trace};
use crate::object::boxed::{lemma_with_mark, HeapObject};
use crate::object::tagged::GcObj;
use vstd::prelude::*;

verus! {

/// Number of objects whose visited bit is clear.
pub open spec fn unmarked_count(h: Heap) -> nat
    decreases h.len(),
{
    if h.len() == 0 {
        0
    } else {
        unmarked_count(h.drop_last()) + if live_at(h, h.len() - 1) && !marked_at(h, h.len() - 1) {
            1nat
        } else {
            0nat
        }
    }
}

/// The slot after the visited bit of its object, if any, was set.
pub open spec fn visited(x: Option<HeapObject>) -> Option<HeapObject> {
    match x {
        Some(o) => Some(o.with_mark(true)),
        None => None,
    }
}

/// The slot after the visited bit of its object, if any, was cleared.
pub open spec fn cleared(x: Option<HeapObject>) -> Option<HeapObject> {
    match x {
        Some(o) => Some(o.with_mark(false)),
        None => None,
    }
}

/// The slot after a sweep: a visited object stays, with the bit cleared;
/// any other object is gone.
pub open spec fn swept(x: Option<HeapObject>) -> Option<HeapObject> {
    match x {
        Some(o) => if o.marked() {
            Some(o.with_mark(false))
        } else {
            None
        },
        None => None,
    }
}

/// Visiting one more object leaves one fewer to visit.
proof fn lemma_unmarked_count_visit(h: Heap, i: int)
    requires
        live_at(h, i),
        !marked_at(h, i),
    ensures
        unmarked_count(h.update(i, visited(h[i]))) == unmarked_count(h) - 1,
    decreases h.len(),
{
    let h2 = h.update(i, visited(h[i]));
    lemma_with_mark(h[i].unwrap(), true, true);
    if i == h.len() - 1 {
        assert(h2.drop_last() =~= h.drop_last());
    } else {
        lemma_unmarked_count_visit(h.drop_last(), i);
        assert(h2.drop_last() =~= h.drop_last().update(i, visited(h[i])));
    }
}

/// Whether a reference on the stack refers to slot `j`.
pub open spec fn on_stack(s: Seq<GcObj>, j: int) -> bool {
    exists|k: int| 0 <= k < s.len() && (#[trigger] s[k]).target() == Some(j)
}

/// The references on a stack, as a set.
pub open spec fn stack_refs(s: Seq<GcObj>) -> Set<GcObj> {
    Set::new(|o: GcObj| s.contains(o))
}

/// Between two steps of a mark phase that began on the heap `h0`, only
/// visited bits have changed.
pub open spec fn mark_shape(h0: Heap, h: Heap) -> bool {
    &&& h.len() == h0.len()
    &&& forall|i: int| 0 <= i < h0.len() ==> !#[trigger] marked_at(h0, i)
    &&& forall|i: int| #![trigger h[i]] 0 <= i < h0.len() ==> h[i] == h0[i] || h[i] == visited(h0[i])
}

/// What is visited, and what waits on the stack, is reachable.
pub open spec fn mark_sound(h0: Heap, seeds: Set<GcObj>, h: Heap, s: Seq<GcObj>) -> bool {
    &&& forall|i: int| #[trigger] marked_at(h, i) ==> reachable(h0, seeds, i)
    &&& forall|j: int| #[trigger] on_stack(s, j) && live_at(h0, j) ==> reachable(h0, seeds, j)
}

/// What a seed or a visited object refers to is visited or waits on the
/// stack.
pub open spec fn mark_complete(h0: Heap, seeds: Set<GcObj>, h: Heap, s: Seq<GcObj>) -> bool {
    &&& forall|i: int| #[trigger] seeded(h0, seeds, i) ==> marked_at(h, i) || on_stack(s, i)
    &&& forall|i: int, j: int|
        marked_at(h, i) && #[trigger] edge(h0, i, j) ==> marked_at(h, j) || on_stack(s, j)
}

/// What holds between two steps of a mark phase that began on the heap
/// `h0` with the seeds on the stack.
pub open spec fn mark_inv(h0: Heap, seeds: Set<GcObj>, h: Heap, s: Seq<GcObj>) -> bool {
    &&& mark_shape(h0, h)
    &&& mark_sound(h0, seeds, h, s)
    &&& mark_complete(h0, seeds, h, s)
}

/// The invariant holds when the phase begins.
proof fn lemma_mark_inv_init(h0: Heap, s: Seq<GcObj>)
    requires
        forall|i: int| 0 <= i < h0.len() ==> !marked_at(h0, i),
    ensures
        mark_inv(h0, stack_refs(s), h0, s),
{
    let seeds = stack_refs(s);
    assert forall|j: int| #[trigger] on_stack(s, j) && live_at(h0, j) implies reachable(
        h0,
        seeds,
        j,
    ) by {
        let k = choose|k: int| 0 <= k < s.len() && (#[trigger] s[k]).target() == Some(j);
        assert(s.contains(s[k]));
        lemma_reach_seed(h0, seeds, s[k], j);
    }
    assert forall|i: int| #[trigger] seeded(h0, seeds, i) implies on_stack(s, i) by {
        let o = choose|o: GcObj| #[trigger] seeds.contains(o) && o.target() == Some(i);
        let k = choose|k: int| 0 <= k < s.len() && s[k] == o;
        assert(s[k].target() == Some(i));
    }
}

/// A reference that stood on the stack below the top still stands there
/// when the top is taken off.
proof fn lemma_on_stack_below(s: Seq<GcObj>, s2: Seq<GcObj>, j: int)
    requires
        s.len() > 0,
        s.len() - 1 <= s2.len(),
        forall|k: int| 0 <= k < s.len() - 1 ==> s2[k] == s[k],
        on_stack(s, j),
        s.last().target() != Some(j),
    ensures
        on_stack(s2, j),
{
    let k = choose|k: int| 0 <= k < s.len() && (#[trigger] s[k]).target() == Some(j);
    assert(k < s.len() - 1);
    assert(s2[k].target() == Some(j));
}

/// The invariant survives taking a reference off the stack that needs no
/// visit: an immediate, a reference to an empty slot, or one to an object
/// that was visited before.
proof fn lemma_mark_inv_skip(h0: Heap, seeds: Set<GcObj>, h: Heap, s: Seq<GcObj>)
    requires
        mark_inv(h0, seeds, h, s),
        s.len() > 0,
        s.last().target() matches Some(t) ==> !live_at(h, t) || marked_at(h, t),
    ensures
        mark_inv(h0, seeds, h, s.drop_last()),
{
    let s2 = s.drop_last();
    assert forall|j: int| #[trigger] on_stack(s2, j) implies on_stack(s, j) by {
        let k = choose|k: int| 0 <= k < s2.len() && (#[trigger] s2[k]).target() == Some(j);
        assert(s[k].target() == Some(j));
    }
    assert forall|j: int| live_at(h0, j) && on_stack(s, j) implies marked_at(h, j) || on_stack(
        s2,
        j,
    ) by {
        if s.last().target() == Some(j) {
            assert(h[j] == h0[j] || h[j] == visited(h0[j]));
        } else {
            lemma_on_stack_below(s, s2, j);
        }
    }
    assert(mark_sound(h0, seeds, h, s2));
    assert forall|i: int| #[trigger] seeded(h0, seeds, i) implies marked_at(h, i) || on_stack(
        s2,
        i,
    ) by {
        if !marked_at(h, i) {
            assert(on_stack(s, i));
        }
    }
    assert forall|i: int, j: int| marked_at(h, i) && #[trigger] edge(h0, i, j) implies marked_at(
        h,
        j,
    ) || on_stack(s2, j) by {
        if !marked_at(h, j) {
            assert(on_stack(s, j));
        }
    }
}

/// After a visit only visited bits have changed, still.
proof fn lemma_visit_shape(h0: Heap, h: Heap, i: int)
    requires
        mark_shape(h0, h),
        live_at(h, i),
        !marked_at(h, i),
    ensures
        mark_shape(h0, h.update(i, visited(h[i]))),
        h[i] == h0[i],
        live_at(h0, i),
        marked_at(h.update(i, visited(h[i])), i),
        forall|x: int| x != i ==> (marked_at(h.update(i, visited(h[i])), x) <==> marked_at(h, x)),
{
    let h2 = h.update(i, visited(h[i]));
    lemma_with_mark(h[i].unwrap(), true, true);
    assert(h[i] == h0[i] || h[i] == visited(h0[i]));
    if h[i] == visited(h0[i]) {
        lemma_with_mark(h0[i].unwrap(), true, true);
    }
    assert forall|x: int| #![trigger h2[x]] 0 <= x < h0.len() implies h2[x] == h0[x] || h2[x]
        == visited(h0[x]) by {
        if x != i {
            assert(h2[x] == h[x]);
        }
    }
}

/// After a visit, what is visited or waits on the stack is reachable,
/// still.
proof fn lemma_visit_sound(
    h0: Heap,
    seeds: Set<GcObj>,
    h: Heap,
    s: Seq<GcObj>,
    i: int,
    s2: Seq<GcObj>,
    h2: Heap,
)
    requires
        mark_sound(h0, seeds, h, s),
        s.len() > 0,
        s.last().target() == Some(i),
        live_at(h0, i),
        traced(s.drop_last(), s2, h0[i].unwrap().refs()),
        forall|x: int| x != i ==> (marked_at(h2, x) <==> marked_at(h, x)),
    ensures
        reachable(h0, seeds, i),
        mark_sound(h0, seeds, h2, s2),
{
    let s1 = s.drop_last();
    assert(on_stack(s, i)) by {
        assert(s[s.len() - 1].target() == Some(i));
    }
    assert(reachable(h0, seeds, i));
    assert forall|x: int| #[trigger] marked_at(h2, x) implies reachable(h0, seeds, x) by {
        if x != i {
            assert(marked_at(h, x));
        }
    }
    assert forall|j: int| #[trigger] on_stack(s2, j) && live_at(h0, j) implies reachable(
        h0,
        seeds,
        j,
    ) by {
        let k = choose|k: int| 0 <= k < s2.len() && (#[trigger] s2[k]).target() == Some(j);
        if k < s1.len() {
            assert(s2[k] == s1[k]);
            assert(s[k].target() == Some(j));
            assert(on_stack(s, j));
        } else {
            assert(pushed_from(s2, s1.len() as int, s2[k]));
            assert(h0[i].unwrap().refs().contains(s2[k]));
            assert(edge(h0, i, j));
            lemma_reach_step(h0, seeds, i, j);
        }
    }
}

/// After a visit, what a seed or a visited object refers to is visited or
/// waits on the stack, still.
proof fn lemma_visit_complete(
    h0: Heap,
    seeds: Set<GcObj>,
    h: Heap,
    s: Seq<GcObj>,
    i: int,
    s2: Seq<GcObj>,
    h2: Heap,
)
    requires
        mark_complete(h0, seeds, h, s),
        s.len() > 0,
        s.last().target() == Some(i),
        live_at(h0, i),
        traced(s.drop_last(), s2, h0[i].unwrap().refs()),
        marked_at(h2, i),
        forall|x: int| x != i ==> (marked_at(h2, x) <==> marked_at(h, x)),
    ensures
        mark_complete(h0, seeds, h2, s2),
{
    let s1 = s.drop_last();
    assert forall|j: int| on_stack(s, j) implies marked_at(h2, j) || on_stack(s2, j) by {
        if j != i {
            lemma_on_stack_below(s, s2, j);
        }
    }
    assert forall|x: int| #[trigger] seeded(h0, seeds, x) implies marked_at(h2, x) || on_stack(
        s2,
        x,
    ) by {
        if x != i && !marked_at(h, x) {
            assert(on_stack(s, x));
        }
    }
    assert forall|x: int, j: int| marked_at(h2, x) && #[trigger] edge(h0, x, j) implies marked_at(
        h2,
        j,
    ) || on_stack(s2, j) by {
        if x == i {
            let o = choose|o: GcObj| #[trigger]
                h0[i].unwrap().refs().contains(o) && o.target() == Some(j);
            assert(pushed_from(s2, s1.len() as int, o));
            let k = choose|k: int| s1.len() <= k < s2.len() && s2[k] == o;
            assert(s2[k].target() == Some(j));
        } else if j != i {
            assert(marked_at(h, x));
            if !marked_at(h, j) {
                assert(on_stack(s, j));
            }
        }
    }
}

/// The invariant survives a visit: the reference on top of the stack is
/// replaced by the references that leave its object, whose visited bit is
/// then set.
proof fn lemma_mark_inv_visit(
    h0: Heap,
    seeds: Set<GcObj>,
    h: Heap,
    s: Seq<GcObj>,
    i: int,
    s2: Seq<GcObj>,
)
    requires
        mark_inv(h0, seeds, h, s),
        s.len() > 0,
        s.last().target() == Some(i),
        live_at(h, i),
        !marked_at(h, i),
        traced(s.drop_last(), s2, h[i].unwrap().refs()),
    ensures
        mark_inv(h0, seeds, h.update(i, visited(h[i])), s2),
        unmarked_count(h.update(i, visited(h[i]))) < unmarked_count(h),
{
    let h2 = h.update(i, visited(h[i]));
    lemma_unmarked_count_visit(h, i);
    lemma_visit_shape(h0, h, i);
    lemma_visit_sound(h0, seeds, h, s, i, s2, h2);
    lemma_visit_complete(h0, seeds, h, s, i, s2, h2);
}

/// When the stack is empty, the visited objects are exactly the reachable
/// ones.
proof fn lemma_mark_inv_done(h0: Heap, seeds: Set<GcObj>, h: Heap)
    requires
        mark_inv(h0, seeds, h, Seq::<GcObj>::empty()),
    ensures
        forall|i: int|
            0 <= i < h0.len() ==> #[trigger] h[i] == if reachable(h0, seeds, i) {
                visited(h0[i])
            } else {
                h0[i]
            },
{
    let s = Seq::<GcObj>::empty();
    let m = Set::new(|i: int| marked_at(h, i));
    assert forall|j: int| !on_stack(s, j) by {}
    assert forall|i: int| seeded(h0, seeds, i) implies m.contains(i) by {
        assert(marked_at(h, i) || on_stack(s, i));
    }
    assert forall|i: int, j: int| m.contains(i) && #[trigger] edge(h0, i, j) implies m.contains(
        j,
    ) by {
        assert(marked_at(h, j) || on_stack(s, j));
    }
    lemma_closed_holds_reachable(h0, seeds, m);
    assert forall|i: int| 0 <= i < h0.len() implies #[trigger] h[i] == if reachable(h0, seeds, i) {
        visited(h0[i])
    } else {
        h0[i]
    } by {
        assert(h[i] == h0[i] || h[i] == visited(h0[i]));
        if reachable(h0, seeds, i) {
            assert(m.contains(i));
            assert(marked_at(h, i));
            assert(!marked_at(h0, i));
        } else {
            if h[i] != h0[i] {
                lemma_with_mark(h0[i].unwrap(), true, true);
                assert(marked_at(h, i));
            }
        }
    }
}

/// Clears the visited bit of the object in a slot, if there is one.
fn clear_slot(slot: &mut Option<HeapObject>)
    ensures
        *final(slot) == cleared(*old(slot)),
{
    match slot {
        Some(o) => {
            o.unmark();
        },
        None => {},
    }
}

/// Visits the object in a slot, if there is one that was not visited
/// before: sets its visited bit and puts the references that leave it on
/// the work stack. Says whether it did.
fn visit_slot(slot: &mut Option<HeapObject>, state: &mut GcState) -> (did: bool)
    ensures
        did <==> (*old(slot) matches Some(o) && !o.marked()),
        did ==> *final(slot) == visited(*old(slot)) && traced(
            old(state)@,
            final(state)@,
            old(slot).unwrap().refs(),
        ),
        !did ==> *final(slot) == *old(slot) && final(state)@ == old(state)@,
{
    match slot {
        Some(o) => {
            if !o.is_marked() {
                o.mark(state);
                true
            } else {
                false
            }
        },
        None => false,
    }
}

impl Block {
    /// Clears the visited bit of every object.
    pub fn unmark_all(&mut self)
        requires
            old(self).wf(),
        ensures
            final(self).wf(),
            final(self)@.len() == old(self)@.len(),
            forall|i: int| 0 <= i < old(self)@.len() ==> #[trigger] final(self)@[i] == cleared(old(self)@[i]),
    {
        let n = self.slots.len();
        let mut i: usize = 0;
        while i < n
            invariant
                i <= n,
                n == self.slots@.len(),
                n == old(self)@.len(),
                self.free == old(self).free,
                forall|k: int| 0 <= k < i ==> #[trigger] self@[k] == cleared(old(self)@[k]),
                forall|k: int| i <= k < n ==> #[trigger] self@[k] == old(self)@[k],
            decreases n - i,
        {
            let ghost before = self@;
            clear_slot(&mut self.slots[i]);
            assert(self@ =~= before.update(i as int, cleared(before[i as int])));
            i += 1;
        }
        proof {
            lemma_same_shape(old(self)@, self@);
        }
    }

    /// The mark phase: visits every object that can be reached from the
    /// references on the work stack, and sets its visited bit. No visited
    /// bit may be set when the phase begins.
    pub fn mark_from(&mut self, state: &mut GcState)
        requires
            old(self).wf(),
            forall|i: int| 0 <= i < old(self)@.len() ==> !marked_at(old(self)@, i),
        ensures
            final(self).wf(),
            final(state)@.len() == 0,
            final(self)@.len() == old(self)@.len(),
            forall|i: int|
                0 <= i < old(self)@.len() ==> #[trigger] final(self)@[i] == if reachable(
                    old(self)@,
                    stack_refs(old(state)@),
                    i,
                ) {
                    visited(old(self)@[i])
                } else {
                    old(self)@[i]
                },
    {
        let ghost h0 = self@;
        let ghost seeds = stack_refs(state@);
        proof {
            lemma_mark_inv_init(h0, state@);
        }
        while state.stack.len() > 0
            invariant
                self.free == old(self).free,
                mark_inv(h0, seeds, self@, state@),
            decreases unmarked_count(self@), state@.len(),
        {
            let ghost s = state@;
            let ghost h = self@;
            let ghost mut seen: Option<int> = None;
            let top = state.pop().unwrap();
            if let Some(r) = top.get().target_ref() {
                if r.idx < self.slots.len() as u64 {
                    let i = r.idx as usize;
                    let did = visit_slot(&mut self.slots[i], state);
                    proof {
                        if did {
                            seen = Some(i as int);
                        }
                    }
                }
            }
            proof {
                match seen {
                    Some(i) => {
                        assert(self@ =~= h.update(i, visited(h[i])));
                        lemma_mark_inv_visit(h0, seeds, h, s, i, state@);
                    },
                    None => {
                        assert(self@ =~= h);
                        lemma_mark_inv_skip(h0, seeds, h, s);
                    },
                }
            }
        }
        proof {
            assert(state@ =~= Seq::<GcObj>::empty());
            lemma_mark_inv_done(h0, seeds, self@);
            assert forall|i: int| 0 <= i < h0.len() implies (self@[i] is Some <==> h0[i] is Some) by {
                assert(self@[i] == h0[i] || self@[i] == visited(h0[i]));
            }
            lemma_same_shape(h0, self@);
        }
    }

    /// The sweep: frees every object whose visited bit is clear, and
    /// clears the bit of the others.
    pub fn sweep(&mut self)
        requires
            old(self).wf(),
        ensures
            final(self).wf(),
            final(self)@.len() == old(self)@.len(),
            forall|i: int| 0 <= i < old(self)@.len() ==> #[trigger] final(self)@[i] == swept(old(self)@[i]),
            forall|i: int| !marked_at(final(self)@, i),
    {
        let n = self.slots.len();
        let mut free: Vec<usize> = Vec::new();
        let mut i: usize = 0;
        assert(self@.subrange(0, 0) =~= Seq::<Option<HeapObject>>::empty());
        while i < n
            invariant
                i <= n,
                n == self.slots@.len(),
                n == old(self)@.len(),
                free@ == free_slots(self@.subrange(0, i as int)),
                forall|k: int| 0 <= k < i ==> #[trigger] self@[k] == swept(old(self)@[k]),
                forall|k: int| i <= k < n ==> #[trigger] self@[k] == old(self)@[k],
            decreases n - i,
        {
            let ghost before = self@;
            let keep = match &self.slots[i] {
                Some(o) => o.is_marked(),
                None => false,
            };
            if keep {
                clear_slot(&mut self.slots[i]);
                assert(self@ =~= before.update(i as int, cleared(before[i as int])));
            } else {
                self.slots[i] = None;
                free.push(i);
            }
            proof {
                let now = self@.subrange(0, i + 1);
                assert(now.drop_last() =~= before.subrange(0, i as int));
                assert(now.last() == self@[i as int]);
            }
            i += 1;
        }
        assert(self@.subrange(0, n as int) =~= self@);
        self.free = free;
        proof {
            assert forall|i: int| !marked_at(self@, i) by {
                if live_at(self@, i) {
                    assert(self@[i] == swept(old(self)@[i]));
                    lemma_with_mark(old(self)@[i].unwrap(), false, false);
                }
            }
        }
    }

    /// A whole collection: clears stale visited bits, marks from the
    /// references on the work stack, and sweeps. What can be reached from
    /// those references stays as it was, but for a cleared visited bit;
    /// everything else is freed.
    pub fn collect(&mut self, state: &mut GcState)
        requires
            old(self).wf(),
        ensures
            final(self).wf(),
            final(state)@.len() == 0,
            final(self)@.len() == old(self)@.len(),
            forall|i: int|
                0 <= i < old(self)@.len() ==> #[trigger] final(self)@[i] == if reachable(
                    old(self)@,
                    stack_refs(old(state)@),
                    i,
                ) {
                    cleared(old(self)@[i])
                } else {
                    None
                },
            forall|i: int| !marked_at(final(self)@, i),
    {
        let ghost seeds = stack_refs(state@);
        self.unmark_all();
        let ghost h0 = self@;
        proof {
            assert forall|i: int| 0 <= i < h0.len() implies !marked_at(h0, i) by {
                assert(h0[i] == cleared(old(self)@[i]));
                if old(self)@[i] is Some {
                    lemma_with_mark(old(self)@[i].unwrap(), false, false);
                }
            }
        }
        self.mark_from(state);
        let ghost h1 = self@;
        self.sweep();
        proof {
            let pre = old(self)@;
            assert(same_graph(pre, h0) && same_graph(h0, pre)) by {
                assert forall|i: int| 0 <= i < pre.len() implies (pre[i] is Some <==> h0[i] is Some)
                    && (live_at(pre, i) ==> pre[i].unwrap().refs() == h0[i].unwrap().refs()) by {
                    assert(h0[i] == cleared(pre[i]));
                    if pre[i] is Some {
                        lemma_with_mark(pre[i].unwrap(), false, false);
                    }
                }
            }
            assert forall|i: int| 0 <= i < pre.len() implies #[trigger] self@[i] == if reachable(
                pre,
                seeds,
                i,
            ) {
                cleared(pre[i])
            } else {
                None
            } by {
                assert(h0[i] == cleared(pre[i]));
                assert(self@[i] == swept(h1[i]));
                if reachable(pre, seeds, i) {
                    lemma_reach_same_graph(pre, h0, seeds, i);
                    crate::gc::reach::lemma_reach_live(pre, seeds, i);
                    lemma_with_mark(pre[i].unwrap(), false, true);
                    lemma_with_mark(h0[i].unwrap(), true, false);
                    lemma_with_mark(pre[i].unwrap(), false, false);
                } else {
                    if reachable(h0, seeds, i) {
                        lemma_reach_same_graph(h0, pre, seeds, i);
                    }
                    if pre[i] is Some {
                        lemma_with_mark(pre[i].unwrap(), false, false);
                    }
                }
            }
        }
    }
}

} // verus!
