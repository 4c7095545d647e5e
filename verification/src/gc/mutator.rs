//! What the mutator does through the context: building objects, reading
//! and writing them, and rooting values.

use crate::gc::context::{heap_closed, inserted, obj_valid, Context};
use crate::gc::heap::{live_at, Heap};
use crate::gc::mark::GcMark;
use crate::gc::reach::reachable;
use crate::gc::root::{Root, Rooted};
use crate::gc::trace::{lemma_seq_refs_drop_last, lemma_seq_refs_push, lemma_seq_refs_update, Trace};
use crate::object::boxed::{HeapObject, LispFloat, LispString};
use crate::object::cons::Cons;
use crate::object::func::{BuiltIn, FnArgs, LispFn, SubrFn};
use crate::object::tagged::{GcObj, Object, ObjRef};
use crate::object::vector::LispVec;
use vstd::prelude::*;

verus! {

/// Whether two heaps hold objects of the same variants in the same slots.
pub open spec fn same_kinds(a: Heap, b: Heap) -> bool {
    &&& a.len() == b.len()
    &&& forall|i: int|
        0 <= i < a.len() ==> ((#[trigger] a[i]) is Some <==> b[i] is Some) && (a[i] is Some
            ==> a[i].unwrap().kind() == b[i].unwrap().kind())
}

/// Whether a value is valid depends only on which slots hold objects of
/// which variant.
pub proof fn lemma_valid_same_kinds(a: Heap, b: Heap, nsyms: nat, o: GcObj)
    requires
        same_kinds(a, b),
    ensures
        obj_valid(a, nsyms, o) == obj_valid(b, nsyms, o),
{
    match o.target() {
        Some(i) => {
            if 0 <= i < a.len() {
                assert((a[i] is Some <==> b[i] is Some) && (a[i] is Some ==> a[i].unwrap().kind()
                    == b[i].unwrap().kind()));
            }
        },
        None => {},
    }
}

/// Replacing an object by one of the same variant, whose references are
/// valid, keeps the heap closed.
pub proof fn lemma_closed_replace(h: Heap, nsyms: nat, i: int, obj: HeapObject)
    requires
        heap_closed(h, nsyms),
        live_at(h, i),
        h[i].unwrap().kind() == obj.kind(),
        forall|o: GcObj| #[trigger] obj.refs().contains(o) ==> obj_valid(h, nsyms, o),
    ensures
        heap_closed(h.update(i, Some(obj)), nsyms),
        same_kinds(h, h.update(i, Some(obj))),
{
    let h2 = h.update(i, Some(obj));
    assert(same_kinds(h, h2));
    assert forall|j: int, o: GcObj|
        live_at(h2, j) && #[trigger] h2[j].unwrap().refs().contains(o) implies obj_valid(
        h2,
        nsyms,
        o,
    ) by {
        if j == i {
            assert(obj.refs().contains(o));
        } else {
            assert(h[j].unwrap().refs().contains(o));
        }
        lemma_valid_same_kinds(h, h2, nsyms, o);
    }
}

impl Context {
    /// Whether `self` is `before` after the allocation of `obj` that
    /// returned `r`: the roots are the same, and the object stands in a
    /// slot that was empty on the heap that the allocation found or, if a
    /// collection was due, left.
    pub open spec fn added(&self, before: &Context, obj: HeapObject, r: Option<GcObj>) -> bool {
        &&& self.same_roots(before)
        &&& match r {
            Some(g) => {
                &&& g.tag_spec() == obj.kind()
                &&& g.target() matches Some(i)
                &&& inserted(before.add_base(obj), i, obj.with_mark(false), self.block@)
            },
            None => self.block@ == before.add_base(obj) && self.block.full(),
        }
    }

    /// Whether a value that is valid now is sure to be valid after an
    /// allocation of `obj`: always if no collection is due, and else if
    /// it refers to no object or to one that the roots or `obj` reach.
    pub open spec fn survives(&self, obj: HeapObject, o: GcObj) -> bool {
        self.valid(o) && (self.collection_due() ==> (o.target() matches Some(i) ==> reachable(
            self.block@,
            self.root_refs().union(obj.refs()),
            i,
        )))
    }

    /// The cons cell that a valid value of that variant refers to.
    pub open spec fn cons_at(&self, g: GcObj) -> Cons {
        self.block@[g.target().unwrap()].unwrap()->Cons_0
    }

    /// The vector that a valid value of that variant refers to.
    pub open spec fn vec_at(&self, g: GcObj) -> LispVec {
        self.block@[g.target().unwrap()].unwrap()->Vec_0
    }

    /// The string that a valid value of that variant refers to.
    pub open spec fn string_at(&self, g: GcObj) -> LispString {
        self.block@[g.target().unwrap()].unwrap()->String_0
    }

    /// The float that a valid value of that variant refers to.
    pub open spec fn float_at(&self, g: GcObj) -> LispFloat {
        self.block@[g.target().unwrap()].unwrap()->Float_0
    }

    /// The byte-compiled function that a valid value of that variant
    /// refers to.
    pub open spec fn lisp_fn_at(&self, g: GcObj) -> LispFn {
        self.block@[g.target().unwrap()].unwrap()->LispFn_0
    }

    /// The subroutine descriptor that a valid value of that variant
    /// refers to.
    pub open spec fn subr_at(&self, g: GcObj) -> SubrFn {
        self.block@[g.target().unwrap()].unwrap()->SubrFn_0
    }

    /// Whether a value may be used with this context: for callers that
    /// cannot tell otherwise whether a reference has outlived its object.
    pub fn is_valid(&self, o: GcObj) -> (b: bool)
        ensures
            b == self.valid(o),
    {
        match o.get() {
            Object::Int(_) => true,
            Object::Symbol(s) => s.id < self.symbols.len() as u64,
            Object::Float(r) => matches!(self.block.get(r), Some(HeapObject::Float(_))),
            Object::String(r) => matches!(self.block.get(r), Some(HeapObject::String(_))),
            Object::Cons(r) => matches!(self.block.get(r), Some(HeapObject::Cons(_))),
            Object::Vec(r) => matches!(self.block.get(r), Some(HeapObject::Vec(_))),
            Object::LispFn(r) => matches!(self.block.get(r), Some(HeapObject::LispFn(_))),
            Object::SubrFn(r) => matches!(self.block.get(r), Some(HeapObject::SubrFn(_))),
        }
    }

    /// Allocates an object whose references are valid, and says which
    /// values are valid afterwards.
    pub fn add_obj(&mut self, obj: HeapObject) -> (r: Option<GcObj>)
        requires
            old(self).wf(),
            forall|o: GcObj| #[trigger] obj.refs().contains(o) ==> old(self).valid(o),
        ensures
            final(self).wf(),
            final(self).added(old(self), obj, r),
            r matches Some(g) ==> final(self).valid(g) && final(self).block@[g.target().unwrap()]
                == Some(obj.with_mark(false)),
            forall|o: GcObj| #[trigger] obj.refs().contains(o) ==> final(self).valid(o),
            forall|o: GcObj| old(self).survives(obj, o) ==> #[trigger] final(self).valid(o),
            forall|i: int|
                live_at(old(self).add_base(obj), i) ==> live_at(final(self).block@, i)
                    && #[trigger] final(self).block@[i] == old(self).add_base(obj)[i],
    {
        let ghost base = old(self).add_base(obj);
        let ghost nsyms = self.symbols@.len();
        let r = self.add(obj);
        proof {
            if old(self).collection_due() {
                crate::gc::context::lemma_collected_valid(
                    old(self).block@,
                    nsyms,
                    old(self).root_refs().union(obj.refs()),
                );
            }
            assert(heap_closed(base, nsyms));
            match r {
                Some(g) => {
                    let i = g.target().unwrap();
                    crate::object::boxed::lemma_with_mark(obj, false, false);
                    assert forall|o: GcObj| #[trigger]
                        obj.with_mark(false).refs().contains(o) implies obj_valid(
                        base,
                        nsyms,
                        o,
                    ) by {
                        assert(obj.refs().contains(o));
                        if old(self).collection_due() {
                            assert(old(self).root_refs().union(obj.refs()).contains(o));
                        }
                    }
                    crate::gc::context::lemma_inserted_valid(
                        base,
                        nsyms,
                        i,
                        obj.with_mark(false),
                        self.block@,
                    );
                },
                None => {},
            }
        }
        r
    }

    /// Allocates a cons cell.
    pub fn cons(&mut self, car: GcObj, cdr: GcObj) -> (r: Option<GcObj>)
        requires
            old(self).wf(),
            old(self).valid(car),
            old(self).valid(cdr),
        ensures
            final(self).wf(),
            final(self).added(
                old(self),
                HeapObject::Cons(Cons { gc: GcMark { bits: 0 }, car, cdr }),
                r,
            ),
            final(self).valid(car),
            final(self).valid(cdr),
            r matches Some(g) ==> g@ is Cons && final(self).valid(g) && final(self).cons_at(g).car
                == car && final(self).cons_at(g).cdr == cdr,
            forall|o: GcObj|
                old(self).survives(HeapObject::Cons(Cons { gc: GcMark { bits: 0 }, car, cdr }), o)
                    ==> #[trigger] final(self).valid(o),
            forall|i: int|
                live_at(
                    old(self).add_base(HeapObject::Cons(Cons { gc: GcMark { bits: 0 }, car, cdr })),
                    i,
                ) ==> live_at(final(self).block@, i) && #[trigger] final(self).block@[i] == old(
                    self,
                ).add_base(HeapObject::Cons(Cons { gc: GcMark { bits: 0 }, car, cdr }))[i],
    {
        let obj = HeapObject::Cons(Cons::new(car, cdr));
        assert(obj.refs().contains(car) && obj.refs().contains(cdr));
        self.add_obj(obj)
    }

    /// Allocates a vector with the given items.
    pub fn vector(&mut self, items: Vec<GcObj>) -> (r: Option<GcObj>)
        requires
            old(self).wf(),
            old(self).all_valid(items@),
        ensures
            final(self).wf(),
            final(self).added(
                old(self),
                HeapObject::Vec(LispVec { gc: GcMark { bits: 0 }, items, readers: 0 }),
                r,
            ),
            final(self).all_valid(items@),
            r matches Some(g) ==> g@ is Vec && final(self).valid(g) && final(self).vec_at(g)@
                == items@ && final(self).vec_at(g).readers == 0,
            forall|o: GcObj|
                old(self).survives(
                    HeapObject::Vec(LispVec { gc: GcMark { bits: 0 }, items, readers: 0 }),
                    o,
                ) ==> #[trigger] final(self).valid(o),
    {
        let obj = HeapObject::Vec(LispVec::new(items));
        proof {
            assert forall|o: GcObj| #[trigger] obj.refs().contains(o) implies old(self).valid(o) by {
                let i = choose|i: int|
                    0 <= i < items@.len() && i < items@.len() && #[trigger] items@[i].refs().contains(
                        o,
                    );
                assert(items@[i] == o);
            }
        }
        let r = self.add_obj(obj);
        proof {
            assert forall|i: int| 0 <= i < items@.len() implies self.valid(#[trigger] items@[i]) by {
                assert(items@[i].refs().contains(items@[i]));
                assert(obj.refs().contains(items@[i]));
            }
        }
        r
    }

    /// Allocates a string.
    pub fn string(&mut self, text: String) -> (r: Option<GcObj>)
        requires
            old(self).wf(),
        ensures
            final(self).wf(),
            final(self).added(
                old(self),
                HeapObject::String(LispString { gc: GcMark { bits: 0 }, text }),
                r,
            ),
            r matches Some(g) ==> g@ is String && final(self).valid(g) && final(self).string_at(
                g,
            ).text == text,
            forall|o: GcObj|
                old(self).survives(
                    HeapObject::String(LispString { gc: GcMark { bits: 0 }, text }),
                    o,
                ) ==> #[trigger] final(self).valid(o),
    {
        self.add_obj(HeapObject::String(LispString::new(text)))
    }

    /// Allocates a float with the given bit pattern.
    pub fn float(&mut self, bits: u64) -> (r: Option<GcObj>)
        requires
            old(self).wf(),
        ensures
            final(self).wf(),
            final(self).added(
                old(self),
                HeapObject::Float(LispFloat { gc: GcMark { bits: 0 }, bits }),
                r,
            ),
            r matches Some(g) ==> g@ is Float && final(self).valid(g) && final(self).float_at(g).bits
                == bits,
            forall|o: GcObj|
                old(self).survives(HeapObject::Float(LispFloat { gc: GcMark { bits: 0 }, bits }), o)
                    ==> #[trigger] final(self).valid(o),
    {
        self.add_obj(HeapObject::Float(LispFloat::new(bits)))
    }

    /// Allocates a byte-compiled function.
    pub fn lisp_fn(&mut self, f: LispFn) -> (r: Option<GcObj>)
        requires
            old(self).wf(),
            old(self).all_valid(f.body.constants@),
        ensures
            final(self).wf(),
            final(self).added(old(self), HeapObject::LispFn(f), r),
            final(self).all_valid(f.body.constants@),
            r matches Some(g) ==> g@ is LispFn && final(self).valid(g) && final(self).lisp_fn_at(g)
                == (LispFn { gc: f.gc.with_mark(false), body: f.body, args: f.args }),
            forall|o: GcObj|
                old(self).survives(HeapObject::LispFn(f), o) ==> #[trigger] final(self).valid(o),
    {
        let ghost consts = f.body.constants@;
        let obj = HeapObject::LispFn(f);
        proof {
            assert forall|o: GcObj| #[trigger] obj.refs().contains(o) implies old(self).valid(o) by {
                let i = choose|i: int|
                    0 <= i < consts.len() && i < consts.len() && #[trigger] consts[i].refs().contains(
                        o,
                    );
                assert(consts[i] == o);
            }
        }
        let r = self.add_obj(obj);
        proof {
            assert forall|i: int| 0 <= i < consts.len() implies self.valid(#[trigger] consts[i]) by {
                assert(consts[i].refs().contains(consts[i]));
                assert(obj.refs().contains(consts[i]));
            }
        }
        r
    }

    /// Allocates the descriptor of a built-in subroutine.
    pub fn subr(&mut self, subr: BuiltIn, args: FnArgs, name: &'static str) -> (r: Option<GcObj>)
        requires
            old(self).wf(),
        ensures
            final(self).wf(),
            final(self).added(
                old(self),
                HeapObject::SubrFn(SubrFn { gc: GcMark { bits: 0 }, subr, args, name }),
                r,
            ),
            r matches Some(g) ==> g@ is SubrFn && final(self).valid(g) && final(self).subr_at(g)
                == (SubrFn { gc: GcMark { bits: 0 }, subr, args, name }),
            forall|o: GcObj|
                old(self).survives(
                    HeapObject::SubrFn(SubrFn { gc: GcMark { bits: 0 }, subr, args, name }),
                    o,
                ) ==> #[trigger] final(self).valid(o),
    {
        self.add_obj(HeapObject::SubrFn(SubrFn::new(subr, args, name)))
    }

    /// The first of the pair that `c` refers to.
    pub fn car(&self, c: ObjRef) -> (v: GcObj)
        requires
            self.wf(),
            self.block.live(c),
            self.block.obj(c) is Cons,
        ensures
            v == self.block.obj(c)->Cons_0.car,
            self.valid(v),
    {
        let v = self.block.cons(c).car();
        assert(self.block@[c.idx as int].unwrap().refs().contains(v));
        v
    }

    /// The second of the pair that `c` refers to.
    pub fn cdr(&self, c: ObjRef) -> (v: GcObj)
        requires
            self.wf(),
            self.block.live(c),
            self.block.obj(c) is Cons,
        ensures
            v == self.block.obj(c)->Cons_0.cdr,
            self.valid(v),
    {
        let v = self.block.cons(c).cdr();
        assert(self.block@[c.idx as int].unwrap().refs().contains(v));
        v
    }

    /// Replaces the first of the pair that `c` refers to.
    pub fn setcar(&mut self, c: ObjRef, v: GcObj)
        requires
            old(self).wf(),
            old(self).block.live(c),
            old(self).block.obj(c) is Cons,
            old(self).valid(v),
        ensures
            final(self).wf(),
            final(self).same_roots(old(self)),
            final(self).threshold == old(self).threshold,
            final(self).block@ == old(self).block@.update(
                c.idx as int,
                Some(
                    HeapObject::Cons(
                        Cons {
                            gc: old(self).block.obj(c)->Cons_0.gc,
                            car: v,
                            cdr: old(self).block.obj(c)->Cons_0.cdr,
                        },
                    ),
                ),
            ),
            forall|o: GcObj| old(self).valid(o) == #[trigger] final(self).valid(o),
    {
        let ghost nsyms = self.symbols@.len();
        let ghost before = self.block@.update(c.idx as int, self.block@[c.idx as int]);
        let ghost cell = self.block.obj(c)->Cons_0;
        self.block.set_car(c, v);
        proof {
            let obj = HeapObject::Cons(Cons { gc: cell.gc, car: v, cdr: cell.cdr });
            assert(old(self).block@[c.idx as int].unwrap().refs().contains(cell.cdr));
            lemma_closed_replace(old(self).block@, nsyms, c.idx as int, obj);
            assert forall|o: GcObj| old(self).valid(o) == #[trigger] self.valid(o) by {
                lemma_valid_same_kinds(old(self).block@, self.block@, nsyms, o);
            }
            assert forall|o: GcObj| #[trigger] self.root_refs().contains(o) implies self.valid(o) by {
                assert(old(self).root_refs().contains(o));
            }
        }
    }

    /// Replaces the second of the pair that `c` refers to.
    pub fn setcdr(&mut self, c: ObjRef, v: GcObj)
        requires
            old(self).wf(),
            old(self).block.live(c),
            old(self).block.obj(c) is Cons,
            old(self).valid(v),
        ensures
            final(self).wf(),
            final(self).same_roots(old(self)),
            final(self).threshold == old(self).threshold,
            final(self).block@ == old(self).block@.update(
                c.idx as int,
                Some(
                    HeapObject::Cons(
                        Cons {
                            gc: old(self).block.obj(c)->Cons_0.gc,
                            car: old(self).block.obj(c)->Cons_0.car,
                            cdr: v,
                        },
                    ),
                ),
            ),
            forall|o: GcObj| old(self).valid(o) == #[trigger] final(self).valid(o),
    {
        let ghost nsyms = self.symbols@.len();
        let ghost cell = self.block.obj(c)->Cons_0;
        self.block.set_cdr(c, v);
        proof {
            let obj = HeapObject::Cons(Cons { gc: cell.gc, car: cell.car, cdr: v });
            assert(old(self).block@[c.idx as int].unwrap().refs().contains(cell.car));
            lemma_closed_replace(old(self).block@, nsyms, c.idx as int, obj);
            assert forall|o: GcObj| old(self).valid(o) == #[trigger] self.valid(o) by {
                lemma_valid_same_kinds(old(self).block@, self.block@, nsyms, o);
            }
            assert forall|o: GcObj| #[trigger] self.root_refs().contains(o) implies self.valid(o) by {
                assert(old(self).root_refs().contains(o));
            }
        }
    }

    /// Writes item `idx` of the vector that `r` refers to. Fails while a
    /// reader holds the vector, and on an index past its end; nothing
    /// changes then.
    pub fn vec_set(&mut self, r: ObjRef, idx: usize, v: GcObj) -> (res: Result<(), crate::error::Error>)
        requires
            old(self).wf(),
            old(self).block.live(r),
            old(self).block.obj(r) is Vec,
            old(self).valid(v),
        ensures
            final(self).wf(),
            final(self).same_roots(old(self)),
            final(self).threshold == old(self).threshold,
            final(self).block@.len() == old(self).block@.len(),
            forall|i: int|
                0 <= i < old(self).block@.len() && i != r.idx ==> final(self).block@[i] == old(
                    self,
                ).block@[i],
            final(self).block.live(r),
            final(self).block.obj(r) is Vec,
            old(self).block.obj(r)->Vec_0.after_set(
                idx,
                v,
                final(self).block.obj(r)->Vec_0,
                crate::error::failure(res),
            ),
            forall|o: GcObj| old(self).valid(o) == #[trigger] final(self).valid(o),
    {
        let ghost nsyms = self.symbols@.len();
        let ghost a = self.block.obj(r)->Vec_0;
        let res = self.block.vec_set(r, idx, v);
        proof {
            let b = self.block.obj(r)->Vec_0;
            let obj = HeapObject::Vec(b);
            assert(self.block@ =~= old(self).block@.update(r.idx as int, Some(obj)));
            assert forall|o: GcObj| #[trigger] obj.refs().contains(o) implies obj_valid(
                old(self).block@,
                nsyms,
                o,
            ) by {
                let k = choose|k: int|
                    0 <= k < b@.len() && k < b@.len() && #[trigger] b@[k].refs().contains(o);
                assert(b@[k] == o);
                if res is Ok && k == idx {
                } else {
                    assert(a@[k] == o);
                    assert(a@[k].refs().contains(o));
                    assert(old(self).block@[r.idx as int].unwrap().refs().contains(o));
                }
            }
            lemma_closed_replace(old(self).block@, nsyms, r.idx as int, obj);
            assert forall|o: GcObj| old(self).valid(o) == #[trigger] self.valid(o) by {
                lemma_valid_same_kinds(old(self).block@, self.block@, nsyms, o);
            }
            assert forall|o: GcObj| #[trigger] self.root_refs().contains(o) implies self.valid(o) by {
                assert(old(self).root_refs().contains(o));
            }
        }
        res
    }

    /// Registers (`begin`) or releases a reader of the vector that `r`
    /// refers to.
    pub fn vec_read(&mut self, r: ObjRef, begin: bool)
        requires
            old(self).wf(),
            old(self).block.live(r),
            old(self).block.obj(r) is Vec,
        ensures
            final(self).wf(),
            final(self).same_roots(old(self)),
            final(self).threshold == old(self).threshold,
            final(self).block@.len() == old(self).block@.len(),
            forall|i: int|
                0 <= i < old(self).block@.len() && i != r.idx ==> final(self).block@[i] == old(
                    self,
                ).block@[i],
            final(self).block.live(r),
            final(self).block.obj(r) is Vec,
            old(self).block.obj(r)->Vec_0.after_read(begin, final(self).block.obj(r)->Vec_0),
            forall|o: GcObj| old(self).valid(o) == #[trigger] final(self).valid(o),
    {
        let ghost nsyms = self.symbols@.len();
        let ghost a = self.block.obj(r)->Vec_0;
        self.block.vec_read(r, begin);
        proof {
            let b = self.block.obj(r)->Vec_0;
            let obj = HeapObject::Vec(b);
            assert(self.block@ =~= old(self).block@.update(r.idx as int, Some(obj)));
            assert forall|o: GcObj| #[trigger] obj.refs().contains(o) implies obj_valid(
                old(self).block@,
                nsyms,
                o,
            ) by {
                let k = choose|k: int|
                    0 <= k < b@.len() && k < b@.len() && #[trigger] b@[k].refs().contains(o);
                assert(a@[k].refs().contains(o));
                assert(old(self).block@[r.idx as int].unwrap().refs().contains(o));
            }
            lemma_closed_replace(old(self).block@, nsyms, r.idx as int, obj);
            assert forall|o: GcObj| old(self).valid(o) == #[trigger] self.valid(o) by {
                lemma_valid_same_kinds(old(self).block@, self.block@, nsyms, o);
            }
            assert forall|o: GcObj| #[trigger] self.root_refs().contains(o) implies self.valid(o) by {
                assert(old(self).root_refs().contains(o));
            }
        }
    }

    /// Registers a root slot that holds `value`. From here on, and until
    /// the slot is taken off, what `value` refers to survives every
    /// collection.
    pub fn root(&mut self, value: Rooted) -> (r: Root)
        requires
            old(self).wf(),
            forall|o: GcObj| #[trigger] value.refs().contains(o) ==> old(self).valid(o),
        ensures
            final(self).wf(),
            final(self).roots@ == old(self).roots@.push(value),
            r.slot == old(self).roots@.len(),
            final(self).block == old(self).block,
            final(self).symbols == old(self).symbols,
            final(self).env == old(self).env,
            final(self).features == old(self).features,
            final(self).threshold == old(self).threshold,
    {
        let r = self.roots.register(value);
        proof {
            lemma_seq_refs_push(old(self).roots@, value);
            assert forall|o: GcObj| #[trigger] self.root_refs().contains(o) implies self.valid(o) by {
                if !value.refs().contains(o) {
                    assert(old(self).root_refs().contains(o));
                }
            }
        }
        r
    }

    /// Takes the root slot `r` off and hands back what it held. The slot
    /// has to be the one registered last.
    pub fn unroot(&mut self, r: Root) -> (value: Rooted)
        requires
            old(self).wf(),
            old(self).roots.is_top(r),
        ensures
            final(self).wf(),
            final(self).roots@ == old(self).roots@.drop_last(),
            value == old(self).roots@.last(),
            final(self).block == old(self).block,
            final(self).symbols == old(self).symbols,
            final(self).env == old(self).env,
            final(self).features == old(self).features,
            final(self).threshold == old(self).threshold,
    {
        let value = self.roots.deregister(r);
        proof {
            lemma_seq_refs_drop_last(old(self).roots@);
            assert forall|o: GcObj| #[trigger] self.root_refs().contains(o) implies self.valid(o) by {
                assert(old(self).root_refs().contains(o));
            }
        }
        value
    }

    /// Takes the root slot `r` off if it is the one registered last. A
    /// slot that is taken off out of order is refused: nothing changes.
    pub fn try_unroot(&mut self, r: Root) -> (value: Option<Rooted>)
        requires
            old(self).wf(),
        ensures
            final(self).wf(),
            match value {
                Some(v) => old(self).roots.is_top(r) && final(self).roots@ == old(
                    self,
                ).roots@.drop_last() && v == old(self).roots@.last(),
                None => !old(self).roots.is_top(r) && final(self).roots@ == old(self).roots@,
            },
            final(self).block == old(self).block,
            final(self).symbols == old(self).symbols,
            final(self).env == old(self).env,
            final(self).features == old(self).features,
            final(self).threshold == old(self).threshold,
    {
        if self.roots.len() > 0 && r.slot == self.roots.len() - 1 {
            Some(self.unroot(r))
        } else {
            None
        }
    }

    /// The value in a root slot that holds one, under the current state
    /// of the arena.
    pub fn bind(&self, r: Root) -> (v: GcObj)
        requires
            self.wf(),
            self.roots.contains(r),
            self.roots@[r.slot as int] is Obj,
        ensures
            self.roots@[r.slot as int] == Rooted::Obj(v),
            self.valid(v),
    {
        let v = match self.roots.get(r) {
            Some(Rooted::Obj(v)) => *v,
            _ => vstd::pervasive::unreached(),
        };
        proof {
            assert(self.roots@[r.slot as int].refs().contains(v));
            assert(self.roots.refs().contains(v));
            assert(self.root_refs().contains(v));
        }
        v
    }

    /// The vector in a root slot that holds one.
    pub fn bind_vec(&self, r: Root) -> (v: &Vec<GcObj>)
        requires
            self.wf(),
            self.roots.contains(r),
            self.roots@[r.slot as int] is Objs,
        ensures
            self.roots@[r.slot as int] == Rooted::Objs(*v),
            self.all_valid(v@),
    {
        let v = match self.roots.get(r) {
            Some(Rooted::Objs(v)) => v,
            _ => vstd::pervasive::unreached(),
        };
        proof {
            assert forall|i: int| 0 <= i < v@.len() implies self.valid(#[trigger] v@[i]) by {
                assert(v@[i].refs().contains(v@[i]));
                assert(self.roots@[r.slot as int].refs().contains(v@[i]));
                assert(self.roots.refs().contains(v@[i]));
                assert(self.root_refs().contains(v@[i]));
            }
        }
        v
    }

    /// Replaces what a root slot holds.
    pub fn set_root(&mut self, r: Root, value: Rooted)
        requires
            old(self).wf(),
            old(self).roots.contains(r),
            forall|o: GcObj| #[trigger] value.refs().contains(o) ==> old(self).valid(o),
        ensures
            final(self).wf(),
            final(self).roots@ == old(self).roots@.update(r.slot as int, value),
            final(self).block == old(self).block,
            final(self).symbols == old(self).symbols,
            final(self).env == old(self).env,
            final(self).features == old(self).features,
            final(self).threshold == old(self).threshold,
    {
        let _ = self.roots.replace(r, value);
        proof {
            lemma_seq_refs_update(old(self).roots@, r.slot as int, value);
            assert forall|o: GcObj| #[trigger] self.root_refs().contains(o) implies self.valid(o) by {
                if !value.refs().contains(o) {
                    assert(old(self).root_refs().contains(o));
                }
            }
        }
    }
}

} // verus!
