//! The arena: slots that hold the boxed objects, and the list of the
//! empty ones.
use crate::error::{failure, Error};
use crate::object::boxed::{HeapObject, LispFloat, LispString};
use crate::object::cons::Cons;
use crate::object::func::{LispFn, SubrFn};
use crate::object::tagged::{GcObj, ObjRef, PAYLOAD_LIMIT};
use crate::object::vector::LispVec;
use vstd::pervasive::unreached;
use vstd::prelude::*;

verus! {

/// The slots of an arena: each holds an object or is empty.
pub type Heap = Seq<Option<HeapObject>>;

/// Whether slot `i` of the heap holds an object.
pub open spec fn live_at(h: Heap, i: int) -> bool {
    0 <= i < h.len() && h[i] is Some
}

/// Whether slot `i` holds an object whose visited bit is set.
pub open spec fn marked_at(h: Heap, i: int) -> bool {
    live_at(h, i) && h[i].unwrap().marked()
}

/// Number of slots that hold an object.
pub open spec fn live_count(h: Heap) -> nat
    decreases h.len(),
{
    if h.len() == 0 {
        0
    } else {
        live_count(h.drop_last()) + if h.last() is Some {
            1nat
        } else {
            0nat
        }
    }
}

/// The empty slots, in increasing order.
pub open spec fn free_slots(h: Heap) -> Seq<usize>
    decreases h.len(),
{
    if h.len() == 0 {
        Seq::empty()
    } else if h.last() is None {
        free_slots(h.drop_last()).push((h.len() - 1) as usize)
    } else {
        free_slots(h.drop_last())
    }
}

/// The slot that the next allocation fills: the last of the empty slots,
/// or a new one at the end if none is empty.
pub open spec fn next_slot(h: Heap) -> int {
    if free_slots(h).len() > 0 {
        free_slots(h).last() as int
    } else {
        h.len() as int
    }
}

/// The list of empty slots names empty slots inside the heap, and
/// together with the live objects accounts for every slot.
pub proof fn lemma_free_slots(h: Heap)
    requires
        h.len() <= usize::MAX,
    ensures
        free_slots(h).len() + live_count(h) == h.len(),
        forall|k: int|
            0 <= k < free_slots(h).len() ==> (#[trigger] free_slots(h)[k]) < h.len() && h[free_slots(
                h,
            )[k] as int] is None,
    decreases h.len(),
{
    if h.len() > 0 {
        lemma_free_slots(h.drop_last());
        let rest = free_slots(h.drop_last());
        assert forall|k: int| 0 <= k < free_slots(h).len() implies (#[trigger] free_slots(h)[k])
            < h.len() && h[free_slots(h)[k] as int] is None by {
            if k < rest.len() {
                assert(free_slots(h)[k] == rest[k]);
                assert(h.drop_last()[rest[k] as int] == h[rest[k] as int]);
            }
        }
    }
}

/// A heap that grows by an object has the same empty slots.
pub proof fn lemma_free_slots_push(h: Heap, o: HeapObject)
    ensures
        free_slots(h.push(Some(o))) == free_slots(h),
        live_count(h.push(Some(o))) == live_count(h) + 1,
{
    assert(h.push(Some(o)).drop_last() =~= h);
}

/// Filling the last of the empty slots removes it from their list.
pub proof fn lemma_free_slots_fill(h: Heap, o: HeapObject)
    requires
        h.len() <= usize::MAX,
        free_slots(h).len() > 0,
    ensures
        free_slots(h.update(free_slots(h).last() as int, Some(o))) == free_slots(h).drop_last(),
        live_count(h.update(free_slots(h).last() as int, Some(o))) == live_count(h) + 1,
    decreases h.len(),
{
    lemma_free_slots(h);
    let i = free_slots(h).last() as int;
    let h2 = h.update(i, Some(o));
    if h.last() is None {
        assert(i == h.len() - 1);
        assert(h2.drop_last() =~= h.drop_last());
        assert(free_slots(h).drop_last() =~= free_slots(h.drop_last()));
    } else {
        lemma_free_slots(h.drop_last());
        assert(i < h.len() - 1);
        lemma_free_slots_fill(h.drop_last(), o);
        assert(h2.drop_last() =~= h.drop_last().update(i, Some(o)));
    }
}

/// Which slots are empty depends only on which slots are empty: heaps of
/// the same shape have the same free list and the same number of objects.
pub proof fn lemma_same_shape(a: Heap, b: Heap)
    requires
        a.len() == b.len(),
        forall|i: int| 0 <= i < a.len() ==> (a[i] is Some <==> b[i] is Some),
    ensures
        free_slots(a) == free_slots(b),
        live_count(a) == live_count(b),
    decreases a.len(),
{
    if a.len() > 0 {
        lemma_same_shape(a.drop_last(), b.drop_last());
    }
}

/// Replaces the first of the pair in a slot that holds a cons cell.
fn slot_set_car(slot: &mut Option<HeapObject>, v: GcObj)
    requires
        *old(slot) matches Some(HeapObject::Cons(_)),
    ensures
        *old(slot) matches Some(HeapObject::Cons(c)) && *final(slot) == Some(
            HeapObject::Cons(Cons { gc: c.gc, car: v, cdr: c.cdr }),
        ),
{
    match slot {
        Some(HeapObject::Cons(c)) => {
            c.set_car(v);
        },
        _ => {},
    }
}

/// Replaces the second of the pair in a slot that holds a cons cell.
fn slot_set_cdr(slot: &mut Option<HeapObject>, v: GcObj)
    requires
        *old(slot) matches Some(HeapObject::Cons(_)),
    ensures
        *old(slot) matches Some(HeapObject::Cons(c)) && *final(slot) == Some(
            HeapObject::Cons(Cons { gc: c.gc, car: c.car, cdr: v }),
        ),
{
    match slot {
        Some(HeapObject::Cons(c)) => {
            c.set_cdr(v);
        },
        _ => {},
    }
}

/// Writes an item of the vector in a slot that holds one.
fn slot_vec_set(slot: &mut Option<HeapObject>, idx: usize, v: GcObj) -> (r: Result<(), Error>)
    requires
        *old(slot) matches Some(HeapObject::Vec(_)),
    ensures
        *final(slot) matches Some(HeapObject::Vec(_)),
        old(slot).unwrap()->Vec_0.after_set(idx, v, final(slot).unwrap()->Vec_0, failure(r)),
{
    match slot {
        Some(HeapObject::Vec(a)) => a.set(idx, v),
        _ => Ok(()),
    }
}

/// Registers or releases a reader of the vector in a slot that holds one.
fn slot_vec_read(slot: &mut Option<HeapObject>, begin: bool)
    requires
        *old(slot) matches Some(HeapObject::Vec(_)),
    ensures
        *final(slot) matches Some(HeapObject::Vec(_)),
        old(slot).unwrap()->Vec_0.after_read(begin, final(slot).unwrap()->Vec_0),
{
    match slot {
        Some(HeapObject::Vec(a)) => {
            if begin {
                a.begin_read();
            } else {
                a.end_read();
            }
        },
        _ => {},
    }
}

/// An arena: the owner of every boxed object. A slot that is freed is
/// handed out again by a later allocation.
pub struct Block {
    /// The slots. A reference is an index into them.
    pub slots: Vec<Option<HeapObject>>,
    /// The empty slots, in increasing order.
    pub free: Vec<usize>,
}

impl View for Block {
    type V = Heap;

    open spec fn view(&self) -> Heap {
        self.slots@
    }
}

impl Block {
    /// The invariant of the arena: the free list names exactly the empty
    /// slots, and every slot has an index that fits in a tagged word.
    pub open spec fn wf(&self) -> bool {
        &&& self.free@ == free_slots(self@)
        &&& self@.len() <= PAYLOAD_LIMIT
        &&& self@.len() <= usize::MAX
    }

    /// Whether no further object can be allocated.
    pub open spec fn full(&self) -> bool {
        self.free@.len() == 0 && self@.len() >= PAYLOAD_LIMIT
    }

    /// Whether `r` refers to an object of this arena.
    pub open spec fn live(&self, r: ObjRef) -> bool {
        live_at(self@, r.idx as int)
    }

    /// The object that `r` refers to.
    pub open spec fn obj(&self, r: ObjRef) -> HeapObject
        recommends
            self.live(r),
    {
        self@[r.idx as int].unwrap()
    }

    /// An arena without objects.
    pub fn new() -> (b: Block)
        ensures
            b.wf(),
            b@ == Seq::<Option<HeapObject>>::empty(),
    {
        Block { slots: Vec::new(), free: Vec::new() }
    }

    /// Number of objects that the arena holds.
    pub fn len(&self) -> (n: usize)
        requires
            self.wf(),
        ensures
            n == live_count(self@),
    {
        proof {
            lemma_free_slots(self@);
        }
        self.slots.len() - self.free.len()
    }

    /// Number of slots, empty ones included.
    pub fn capacity(&self) -> (n: usize)
        ensures
            n == self@.len(),
    {
        self.slots.len()
    }

    /// Puts an object into an empty slot, or into a new one when none is
    /// empty, and returns the reference to it. Fails only when the arena
    /// is full; nothing changes then.
    pub fn insert(&mut self, obj: HeapObject) -> (r: Option<ObjRef>)
        requires
            old(self).wf(),
        ensures
            final(self).wf(),
            match r {
                Some(x) => {
                    &&& !old(self).full()
                    &&& !old(self).live(x)
                    &&& x.idx == next_slot(old(self)@)
                    &&& x.idx <= old(self)@.len()
                    &&& x.idx < PAYLOAD_LIMIT
                    &&& final(self)@ == if x.idx < old(self)@.len() {
                        old(self)@.update(x.idx as int, Some(obj))
                    } else {
                        old(self)@.push(Some(obj))
                    }
                    &&& live_count(final(self)@) == live_count(old(self)@) + 1
                },
                None => old(self).full() && *final(self) == *old(self),
            },
    {
        proof {
            lemma_free_slots(self@);
        }
        if self.free.len() > 0 {
            proof {
                lemma_free_slots_fill(self@, obj);
            }
            let i = self.free.pop().unwrap();
            self.slots[i] = Some(obj);
            assert(self.free@ =~= old(self).free@.drop_last());
            Some(ObjRef { idx: i as u64 })
        } else if (self.slots.len() as u64) < PAYLOAD_LIMIT {
            proof {
                lemma_free_slots_push(self@, obj);
            }
            let i = self.slots.len();
            self.slots.push(Some(obj));
            assert(self.slots.len() == self@.len());
            Some(ObjRef { idx: i as u64 })
        } else {
            None
        }
    }

    /// The object that `r` refers to, if it refers to one.
    pub fn get(&self, r: ObjRef) -> (o: Option<&HeapObject>)
        ensures
            match o {
                Some(x) => self.live(r) && *x == self.obj(r),
                None => !self.live(r),
            },
    {
        if r.idx < self.slots.len() as u64 {
            self.slots[r.idx as usize].as_ref()
        } else {
            None
        }
    }

    /// The place of a live reference, as an index.
    fn place(&self, r: ObjRef) -> (i: usize)
        requires
            self.live(r),
        ensures
            i == r.idx,
    {
        let n = self.slots.len();
        r.idx as usize
    }

    /// The cons cell that `r` refers to.
    pub fn cons(&self, r: ObjRef) -> (c: &Cons)
        requires
            self.live(r),
            self.obj(r) is Cons,
        ensures
            self.obj(r) == HeapObject::Cons(*c),
    {
        match self.get(r) {
            Some(HeapObject::Cons(c)) => c,
            _ => unreached(),
        }
    }

    /// The vector that `r` refers to.
    pub fn vector(&self, r: ObjRef) -> (v: &LispVec)
        requires
            self.live(r),
            self.obj(r) is Vec,
        ensures
            self.obj(r) == HeapObject::Vec(*v),
    {
        match self.get(r) {
            Some(HeapObject::Vec(v)) => v,
            _ => unreached(),
        }
    }

    /// The string that `r` refers to.
    pub fn string(&self, r: ObjRef) -> (s: &LispString)
        requires
            self.live(r),
            self.obj(r) is String,
        ensures
            self.obj(r) == HeapObject::String(*s),
    {
        match self.get(r) {
            Some(HeapObject::String(s)) => s,
            _ => unreached(),
        }
    }

    /// The float that `r` refers to.
    pub fn float(&self, r: ObjRef) -> (f: &LispFloat)
        requires
            self.live(r),
            self.obj(r) is Float,
        ensures
            self.obj(r) == HeapObject::Float(*f),
    {
        match self.get(r) {
            Some(HeapObject::Float(f)) => f,
            _ => unreached(),
        }
    }

    /// The byte-compiled function that `r` refers to.
    pub fn lisp_fn(&self, r: ObjRef) -> (f: &LispFn)
        requires
            self.live(r),
            self.obj(r) is LispFn,
        ensures
            self.obj(r) == HeapObject::LispFn(*f),
    {
        match self.get(r) {
            Some(HeapObject::LispFn(f)) => f,
            _ => unreached(),
        }
    }

    /// The subroutine descriptor that `r` refers to.
    pub fn subr(&self, r: ObjRef) -> (f: &SubrFn)
        requires
            self.live(r),
            self.obj(r) is SubrFn,
        ensures
            self.obj(r) == HeapObject::SubrFn(*f),
    {
        match self.get(r) {
            Some(HeapObject::SubrFn(f)) => f,
            _ => unreached(),
        }
    }

    /// Replaces the first of the pair that `r` refers to.
    pub fn set_car(&mut self, r: ObjRef, v: GcObj)
        requires
            old(self).wf(),
            old(self).live(r),
            old(self).obj(r) is Cons,
        ensures
            final(self).wf(),
            old(self).obj(r) matches HeapObject::Cons(c) && final(self)@ == old(self)@.update(
                r.idx as int,
                Some(HeapObject::Cons(Cons { gc: c.gc, car: v, cdr: c.cdr })),
            ),
    {
        let i = self.place(r);
        slot_set_car(&mut self.slots[i], v);
        proof {
            lemma_same_shape(old(self)@, self@);
            assert(self@ =~= old(self)@.update(i as int, self@[i as int]));
        }
    }

    /// Replaces the second of the pair that `r` refers to.
    pub fn set_cdr(&mut self, r: ObjRef, v: GcObj)
        requires
            old(self).wf(),
            old(self).live(r),
            old(self).obj(r) is Cons,
        ensures
            final(self).wf(),
            old(self).obj(r) matches HeapObject::Cons(c) && final(self)@ == old(self)@.update(
                r.idx as int,
                Some(HeapObject::Cons(Cons { gc: c.gc, car: c.car, cdr: v })),
            ),
    {
        let i = self.place(r);
        slot_set_cdr(&mut self.slots[i], v);
        proof {
            lemma_same_shape(old(self)@, self@);
            assert(self@ =~= old(self)@.update(i as int, self@[i as int]));
        }
    }

    /// Writes item `idx` of the vector that `r` refers to. Fails while a
    /// reader holds the vector, and on an index past its end; nothing
    /// changes then.
    pub fn vec_set(&mut self, r: ObjRef, idx: usize, v: GcObj) -> (res: Result<(), Error>)
        requires
            old(self).wf(),
            old(self).live(r),
            old(self).obj(r) is Vec,
        ensures
            final(self).wf(),
            final(self)@.len() == old(self)@.len(),
            forall|i: int|
                0 <= i < old(self)@.len() && i != r.idx ==> final(self)@[i] == old(self)@[i],
            final(self).live(r),
            final(self).obj(r) is Vec,
            old(self).obj(r)->Vec_0.after_set(idx, v, final(self).obj(r)->Vec_0, failure(res)),
    {
        let i = self.place(r);
        let res = slot_vec_set(&mut self.slots[i], idx, v);
        proof {
            lemma_same_shape(old(self)@, self@);
        }
        res
    }

    /// Registers (`begin`) or releases a reader of the vector that `r`
    /// refers to.
    pub fn vec_read(&mut self, r: ObjRef, begin: bool)
        requires
            old(self).wf(),
            old(self).live(r),
            old(self).obj(r) is Vec,
        ensures
            final(self).wf(),
            final(self)@.len() == old(self)@.len(),
            forall|i: int|
                0 <= i < old(self)@.len() && i != r.idx ==> final(self)@[i] == old(self)@[i],
            final(self).live(r),
            final(self).obj(r) is Vec,
            old(self).obj(r)->Vec_0.after_read(begin, final(self).obj(r)->Vec_0),
    {
        let i = self.place(r);
        slot_vec_read(&mut self.slots[i], begin);
        proof {
            lemma_same_shape(old(self)@, self@);
        }
    }
}

} // verus!
