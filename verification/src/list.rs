//! Lists: chains of cons cells that end in `nil`.
use crate::error::{Error, ErrorView, Type};
use crate::gc::context::{collected, heap_closed, inserted, obj_valid, Context};
use crate::gc::heap::{live_at, Heap};
use crate::gc::mark::GcMark;
use crate::gc::root::Rooted;
use crate::gc::trace::{seq_refs, Trace};
use crate::object::boxed::HeapObject;
use crate::object::cons::Cons;
use crate::object::tagged::{lemma_view_injective, GcObj, Object};
use crate::structure::{
    deref, lemma_collected_preserves, lemma_deref_preserved, lemma_deref_valid,
    lemma_inserted_preserves, lemma_preserved_collected, lemma_preserved_inserted,
    lemma_preserved_itself, lemma_preserved_valid, live_slots, preserved, reached, stays,
    within,
};
use vstd::prelude::*;

verus! {

/// The cons cell that a value refers to, if it refers to one.
pub open spec fn cons_of(h: Heap, o: GcObj) -> Option<Cons> {
    match deref(h, o) {
        Some(HeapObject::Cons(c)) => Some(c),
        _ => None,
    }
}

/// Whether `o` is the list of the items `elems`: `nil` if there are none,
/// and else a cons cell that holds the first item and the list of the
/// others.
pub open spec fn is_list(h: Heap, o: GcObj, elems: Seq<GcObj>) -> bool
    decreases elems.len(),
{
    if elems.len() == 0 {
        o == GcObj::nil_spec()
    } else {
        &&& cons_of(h, o) matches Some(c)
        &&& c.car == elems[0]
        &&& is_list(h, c.cdr, elems.skip(1))
    }
}

/// The items of the list `o`, read through at most `fuel` cons cells.
/// Reading fails on a value that is neither `nil` nor a cons cell, and
/// when the cells do not end in time, as those of a circular list.
pub open spec fn list_elems(h: Heap, o: GcObj, fuel: nat) -> Result<Seq<GcObj>, ErrorView>
    decreases fuel,
{
    if o == GcObj::nil_spec() {
        Ok(Seq::empty())
    } else {
        match cons_of(h, o) {
            Some(c) => if fuel == 0 {
                Err(ErrorView::Circular)
            } else {
                match list_elems(h, c.cdr, (fuel - 1) as nat) {
                    Ok(rest) => Ok(seq![c.car] + rest),
                    Err(e) => Err(e),
                }
            },
            None => Err(ErrorView::Type { expected: Type::List, found: o.tag_spec() }),
        }
    }
}

/// What reading hands back is a list.
pub proof fn lemma_list_elems_sound(h: Heap, o: GcObj, fuel: nat)
    requires
        list_elems(h, o, fuel) is Ok,
    ensures
        is_list(h, o, list_elems(h, o, fuel)->Ok_0),
        list_elems(h, o, fuel)->Ok_0.len() <= fuel,
    decreases fuel,
{
    if o != GcObj::nil_spec() {
        let c = cons_of(h, o).unwrap();
        lemma_list_elems_sound(h, c.cdr, (fuel - 1) as nat);
        let rest = list_elems(h, c.cdr, (fuel - 1) as nat)->Ok_0;
        let s = seq![c.car] + rest;
        assert(s.skip(1) =~= rest);
    }
}

/// A value is the list of at most one sequence of items.
pub proof fn lemma_is_list_unique(h: Heap, o: GcObj, a: Seq<GcObj>, b: Seq<GcObj>)
    requires
        is_list(h, o, a),
        is_list(h, o, b),
    ensures
        a == b,
    decreases a.len(),
{
    if a.len() == 0 {
        if b.len() > 0 {
            assert(cons_of(h, o) is Some);
        }
        assert(a =~= b);
    } else {
        if b.len() == 0 {
            assert(o == GcObj::nil_spec());
        }
        let c = cons_of(h, o).unwrap();
        lemma_is_list_unique(h, c.cdr, a.skip(1), b.skip(1));
        assert(a =~= seq![a[0]] + a.skip(1));
        assert(b =~= seq![b[0]] + b.skip(1));
    }
}

/// A list is read in full when the fuel covers its length.
pub proof fn lemma_list_elems_complete(h: Heap, o: GcObj, elems: Seq<GcObj>, fuel: nat)
    requires
        is_list(h, o, elems),
        elems.len() <= fuel,
    ensures
        list_elems(h, o, fuel) == Ok::<Seq<GcObj>, ErrorView>(elems),
    decreases elems.len(),
{
    if elems.len() == 0 {
        assert(elems =~= Seq::<GcObj>::empty());
    } else {
        let c = cons_of(h, o).unwrap();
        lemma_list_elems_complete(h, c.cdr, elems.skip(1), (fuel - 1) as nat);
        assert(elems =~= seq![c.car] + elems.skip(1));
    }
}

/// What is left of a value after `k` steps to the second of a pair.
pub open spec fn nth_cdr(h: Heap, o: GcObj, k: nat) -> GcObj
    decreases k,
{
    if k == 0 {
        o
    } else {
        match cons_of(h, o) {
            Some(c) => nth_cdr(h, c.cdr, (k - 1) as nat),
            None => o,
        }
    }
}

/// After `k` steps, what is left of a list is the list of the items but
/// the first `k`.
proof fn lemma_nth_cdr_list(h: Heap, o: GcObj, elems: Seq<GcObj>, k: nat)
    requires
        is_list(h, o, elems),
        k <= elems.len(),
    ensures
        is_list(h, nth_cdr(h, o, k), elems.skip(k as int)),
    decreases k,
{
    if k == 0 {
        assert(elems.skip(0) =~= elems);
    } else {
        let c = cons_of(h, o).unwrap();
        lemma_nth_cdr_list(h, c.cdr, elems.skip(1), (k - 1) as nat);
        assert(elems.skip(1).skip(k - 1) =~= elems.skip(k as int));
    }
}

/// A list has no more items than the heap has slots: each of its cells
/// stands in a slot of its own.
pub proof fn lemma_list_fits(h: Heap, o: GcObj, elems: Seq<GcObj>)
    requires
        is_list(h, o, elems),
    ensures
        elems.len() <= h.len(),
{
    let cells = Seq::new(elems.len(), |k: int| nth_cdr(h, o, k as nat).target().unwrap());
    assert forall|k: int| 0 <= k < cells.len() implies 0 <= #[trigger] cells[k] < h.len()
        && cons_of(h, nth_cdr(h, o, k as nat)) is Some by {
        lemma_nth_cdr_list(h, o, elems, k as nat);
        assert(elems.skip(k).len() > 0);
    }
    assert forall|p: int, q: int| 0 <= p < cells.len() && 0 <= q < cells.len() && p != q implies cells[p]
        != cells[q] by {
        if cells[p] == cells[q] {
            let x = nth_cdr(h, o, p as nat);
            let y = nth_cdr(h, o, q as nat);
            lemma_nth_cdr_list(h, o, elems, p as nat);
            lemma_nth_cdr_list(h, o, elems, q as nat);
            assert(cons_of(h, x) is Some && cons_of(h, y) is Some);
            assert(x@ == y@);
            lemma_view_injective(x, y);
            lemma_is_list_unique(h, x, elems.skip(p), elems.skip(q));
            assert(elems.skip(p).len() == elems.len() - p);
            assert(elems.skip(q).len() == elems.len() - q);
        }
    }
    assert(cells.no_duplicates());
    cells.unique_seq_to_set();
    vstd::set_lib::lemma_int_range(0, h.len() as int);
    assert(cells.to_set().subset_of(vstd::set_lib::set_int_range(0, h.len() as int))) by {
        assert forall|i: int| cells.to_set().contains(i) implies vstd::set_lib::set_int_range(
            0,
            h.len() as int,
        ).contains(i) by {
            let k = choose|k: int| 0 <= k < cells.len() && cells[k] == i;
            assert(0 <= cells[k] < h.len());
        }
    }
    vstd::set_lib::lemma_len_subset(
        cells.to_set(),
        vstd::set_lib::set_int_range(0, h.len() as int),
    );
}

/// Reading with as much fuel as the heap has slots reads every list in
/// full: a value is the list of `elems` exactly when that is what reading
/// hands back.
pub proof fn lemma_list_elems_exact(h: Heap, o: GcObj, elems: Seq<GcObj>)
    ensures
        is_list(h, o, elems) <==> list_elems(h, o, h.len()) == Ok::<Seq<GcObj>, ErrorView>(elems),
{
    if is_list(h, o, elems) {
        lemma_list_fits(h, o, elems);
        lemma_list_elems_complete(h, o, elems, h.len());
    }
    if list_elems(h, o, h.len()) == Ok::<Seq<GcObj>, ErrorView>(elems) {
        lemma_list_elems_sound(h, o, h.len());
    }
}

/// A list within preserved slots is the same list in both heaps.
pub proof fn lemma_is_list_preserved(
    h: Heap,
    h2: Heap,
    keep: Set<int>,
    o: GcObj,
    elems: Seq<GcObj>,
)
    requires
        preserved(h, h2, keep),
        within(keep, o),
        is_list(h, o, elems),
    ensures
        is_list(h2, o, elems),
    decreases elems.len(),
{
    if elems.len() > 0 {
        lemma_deref_preserved(h, h2, keep, o);
        let c = cons_of(h, o).unwrap();
        assert(HeapObject::Cons(c).refs().contains(c.cdr));
        lemma_is_list_preserved(h, h2, keep, c.cdr, elems.skip(1));
    }
}

/// A list that the seeds of a collection refer to is the same list after
/// the collection.
pub proof fn lemma_is_list_collected(
    h: Heap,
    nsyms: nat,
    seeds: Set<GcObj>,
    o: GcObj,
    elems: Seq<GcObj>,
)
    requires
        heap_closed(h, nsyms),
        obj_valid(h, nsyms, o),
        seeds.contains(o),
        is_list(h, o, elems),
    ensures
        is_list(collected(h, seeds), o, elems),
{
    lemma_collected_preserves(h, nsyms, seeds);
    lemma_is_list_preserved(h, collected(h, seeds), reached(h, seeds), o, elems);
}

/// A list is the same list after an allocation into an empty slot.
pub proof fn lemma_is_list_inserted(
    before: Heap,
    nsyms: nat,
    i: int,
    obj: HeapObject,
    after: Heap,
    o: GcObj,
    elems: Seq<GcObj>,
)
    requires
        heap_closed(before, nsyms),
        inserted(before, i, obj, after),
        obj_valid(before, nsyms, o),
        is_list(before, o, elems),
    ensures
        is_list(after, o, elems),
{
    lemma_inserted_preserves(before, nsyms, i, obj, after);
    lemma_is_list_preserved(before, after, live_slots(before), o, elems);
}

/// What reading a list hands back after `out` was read already and
/// `rest` is what reading the remainder gives.
pub open spec fn read_on(out: Seq<GcObj>, rest: Result<Seq<GcObj>, ErrorView>) -> Result<
    Seq<GcObj>,
    ErrorView,
> {
    match rest {
        Ok(s) => Ok(out + s),
        Err(e) => Err(e),
    }
}

/// A copy of a vector of values.
pub fn copy_objs(items: &[GcObj]) -> (v: Vec<GcObj>)
    ensures
        v@ == items@,
{
    let mut v: Vec<GcObj> = Vec::new();
    let mut i: usize = 0;
    while i < items.len()
        invariant
            i <= items.len(),
            v@ == items@.take(i as int),
        decreases items.len() - i,
    {
        v.push(items[i]);
        assert(v@ =~= items@.take(i + 1));
        i += 1;
    }
    assert(items@.take(items@.len() as int) =~= items@);
    v
}

/// What the seeds refer to stays when what they reach is preserved.
proof fn lemma_list_stays(
    h0: Heap,
    seeds: Set<GcObj>,
    h: Heap,
    roots: Set<GcObj>,
    items: Seq<GcObj>,
)
    requires
        preserved(h0, h, reached(h0, seeds)),
        seeds == roots.union(seq_refs(items, items.len() as int)),
    ensures
        forall|o: GcObj| #[trigger] roots.contains(o) ==> stays(h0, h, o),
        forall|k: int| 0 <= k < items.len() ==> stays(h0, h, #[trigger] items[k]),
{
    assert forall|o: GcObj| seeds.contains(o) implies stays(h0, h, o) by {
        match o.target() {
            Some(i) => {
                if live_at(h0, i) {
                    crate::gc::reach::lemma_reach_seed(h0, seeds, o, i);
                    assert(reached(h0, seeds).contains(i));
                }
            },
            None => {},
        }
    }
    assert forall|k: int| 0 <= k < items.len() implies stays(h0, h, #[trigger] items[k]) by {
        assert(items[k].refs().contains(items[k]));
        assert(seq_refs(items, items.len() as int).contains(items[k]));
        assert(seeds.contains(items[k]));
    }
    assert forall|o: GcObj| #[trigger] roots.contains(o) implies stays(h0, h, o) by {
        assert(seeds.contains(o));
    }
}

impl Context {
    /// The items of the list `o`. Fails on a value that is neither `nil`
    /// nor a cons cell, at the head or further down, and on a circular
    /// list.
    pub fn list_to_vec(&self, o: GcObj) -> (r: Result<Vec<GcObj>, Error>)
        requires
            self.wf(),
            self.valid(o),
        ensures
            match r {
                Ok(v) => list_elems(self.block@, o, self.block@.len()) == Ok::<
                    Seq<GcObj>,
                    ErrorView,
                >(v@) && self.all_valid(v@) && is_list(self.block@, o, v@),
                Err(e) => list_elems(self.block@, o, self.block@.len()) == Err::<
                    Seq<GcObj>,
                    ErrorView,
                >(e@),
            },
    {
        let ghost h = self.block@;
        let mut out: Vec<GcObj> = Vec::new();
        let mut cur = o;
        let mut fuel = self.block.capacity();
        assert(out@ + Seq::<GcObj>::empty() =~= out@);
        loop
            invariant
                self.wf(),
                h == self.block@,
                self.valid(cur),
                self.all_valid(out@),
                fuel <= h.len(),
                list_elems(h, o, h.len()) == read_on(out@, list_elems(h, cur, fuel as nat)),
            decreases fuel,
        {
            if cur.nil() {
                proof {
                    assert(out@ + Seq::<GcObj>::empty() =~= out@);
                    lemma_list_elems_sound(h, o, h.len());
                }
                return Ok(out);
            }
            proof {
                lemma_deref_valid(h, self.symbols@.len(), cur);
            }
            match cur.get() {
                Object::Cons(c) => {
                    if fuel == 0 {
                        return Err(Error::Circular);
                    }
                    let car = self.car(c);
                    let cdr = self.cdr(c);
                    proof {
                        let rest = list_elems(h, cdr, (fuel - 1) as nat);
                        match rest {
                            Ok(s) => {
                                assert(out@.push(car) + s =~= out@ + (seq![car] + s));
                            },
                            Err(_) => {},
                        }
                    }
                    out.push(car);
                    cur = cdr;
                    fuel = fuel - 1;
                },
                other => {
                    return Err(Error::type_error(Type::List, other.tag()));
                },
            }
        }
    }

    /// Allocates the list of the given items. The items are rooted while
    /// the list is built. Every object that the roots or the items reach
    /// stays in its slot and is what it was, but for its mark word;
    /// nothing else that was there is sure to be. Fails only when the
    /// arena is full.
    pub fn list(&mut self, items: &Vec<GcObj>) -> (r: Option<GcObj>)
        requires
            old(self).wf(),
            old(self).all_valid(items@),
        ensures
            final(self).wf(),
            final(self).same_roots(old(self)),
            final(self).all_valid(items@),
            r matches Some(l) ==> final(self).valid(l) && is_list(final(self).block@, l, items@),
            r is None ==> final(self).block.full(),
            preserved(
                old(self).block@,
                final(self).block@,
                reached(
                    old(self).block@,
                    old(self).root_refs().union(seq_refs(items@, items@.len() as int)),
                ),
            ),
            forall|o: GcObj|
                old(self).valid(o) && within(
                    reached(
                        old(self).block@,
                        old(self).root_refs().union(seq_refs(items@, items@.len() as int)),
                    ),
                    o,
                ) ==> #[trigger] final(self).valid(o),
            forall|o: GcObj| #[trigger]
                old(self).root_refs().contains(o) ==> stays(
                    old(self).block@,
                    final(self).block@,
                    o,
                ),
            forall|k: int|
                0 <= k < items@.len() ==> stays(
                    old(self).block@,
                    final(self).block@,
                    #[trigger] items@[k],
                ),
    {
        let ghost h0 = self.block@;
        let ghost seeds0 = self.root_refs().union(seq_refs(items@, items@.len() as int));
        let ghost kept = reached(h0, seeds0);
        let ghost syms = self.symbols@.len();
        proof {
            lemma_preserved_itself(h0, syms, seeds0);
        }
        let copy = copy_objs(items.as_slice());
        proof {
            crate::gc::trace::lemma_seq_refs_push(self.roots@, Rooted::Objs(copy));
            assert forall|o: GcObj| #[trigger] Rooted::Objs(copy).refs().contains(o) implies self.valid(
                o,
            ) by {
                crate::gc::trace::lemma_seq_refs_objs(copy@, o);
                let k = choose|k: int| 0 <= k < copy@.len() && copy@[k] == o;
                assert(self.valid(items@[k]));
            }
        }
        let root = self.root(Rooted::Objs(copy));
        let mut acc = GcObj::nil_obj();
        let mut i = items.len();
        assert(items@.skip(i as int) =~= Seq::<GcObj>::empty());
        while i > 0
            invariant
                self.wf(),
                i <= items.len(),
                self.roots@ == old(self).roots@.push(Rooted::Objs(copy)),
                root.slot == old(self).roots@.len(),
                copy@ == items@,
                self.symbols == old(self).symbols,
                self.env == old(self).env,
                self.features == old(self).features,
                self.valid(acc),
                is_list(self.block@, acc, items@.skip(i as int)),
                h0 == old(self).block@,
                syms == old(self).symbols@.len(),
                seeds0 == old(self).root_refs().union(seq_refs(items@, items@.len() as int)),
                kept == reached(h0, seeds0),
                seeds0.subset_of(self.root_refs()),
                preserved(h0, self.block@, kept),
            decreases i,
        {
            i -= 1;
            let rooted = self.bind_vec(root);
            let item = rooted[i];
            let ghost before = *self;
            let ghost tail = items@.skip(i + 1);
            let ghost obj = HeapObject::Cons(Cons { gc: GcMark { bits: 0 }, car: item, cdr: acc });
            let ghost nsyms = self.symbols@.len();
            match self.cons(item, acc) {
                Some(c) => {
                    proof {
                        let h = before.block@;
                        let base = before.add_base(obj);
                        let k = c.target().unwrap();
                        if before.collection_due() {
                            let seeds = before.root_refs().union(obj.refs());
                            assert(obj.refs().contains(acc));
                            crate::gc::context::lemma_collected_valid(h, nsyms, seeds);
                            lemma_is_list_collected(h, nsyms, seeds, acc, tail);
                            lemma_preserved_collected(h0, seeds0, h, seeds);
                        }
                        lemma_preserved_inserted(
                            h0,
                            kept,
                            base,
                            k,
                            obj.with_mark(false),
                            self.block@,
                        );
                        assert(self.root_refs() == before.root_refs());
                        assert(obj_valid(base, nsyms, acc));
                        lemma_is_list_inserted(
                            base,
                            nsyms,
                            k,
                            obj.with_mark(false),
                            self.block@,
                            acc,
                            tail,
                        );
                        lemma_deref_valid(self.block@, nsyms, c);
                        assert(items@.skip(i as int).skip(1) =~= tail);
                    }
                    acc = c;
                },
                None => {
                    let ghost last = *self;
                    let _ = self.unroot(root);
                    proof {
                        if before.collection_due() {
                            lemma_preserved_collected(
                                h0,
                                seeds0,
                                before.block@,
                                before.root_refs().union(obj.refs()),
                            );
                        }
                        assert forall|o: GcObj|
                            old(self).valid(o) && within(kept, o) implies #[trigger] self.valid(
                            o,
                        ) by {
                            lemma_preserved_valid(h0, self.block@, kept, syms, o);
                        }
lemma_list_stays(h0, seeds0, self.block@, old(self).root_refs(), items@);
                        assert(self.roots@ =~= old(self).roots@);
                        assert forall|k: int| 0 <= k < items@.len() implies self.valid(
                            #[trigger] items@[k],
                        ) by {
                            assert(copy@[k].refs().contains(copy@[k]));
                            assert(Rooted::Objs(copy).refs().contains(copy@[k]));
                            assert(last.roots@[root.slot as int].refs().contains(copy@[k]));
                            assert(last.roots.refs().contains(copy@[k]));
                            assert(last.root_refs().contains(copy@[k]));
                        }
                    }
                    return None;
                },
            }
        }
        let ghost last = *self;
        let _ = self.unroot(root);
        proof {
            assert forall|o: GcObj|
                old(self).valid(o) && within(kept, o) implies #[trigger] self.valid(o) by {
                lemma_preserved_valid(h0, self.block@, kept, syms, o);
            }
lemma_list_stays(h0, seeds0, self.block@, old(self).root_refs(), items@);
            assert(self.roots@ =~= old(self).roots@);
            assert(items@.skip(0) =~= items@);
            assert forall|k: int| 0 <= k < items@.len() implies self.valid(#[trigger] items@[k]) by {
                assert(copy@[k].refs().contains(copy@[k]));
                assert(Rooted::Objs(copy).refs().contains(copy@[k]));
                assert(last.roots@[root.slot as int].refs().contains(copy@[k]));
                assert(last.roots.refs().contains(copy@[k]));
                assert(last.root_refs().contains(copy@[k]));
            }
        }
        Some(acc)
    }
}

} // verus!
