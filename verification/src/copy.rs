//! Copying a structure from one arena into another.
use crate::env::SymbolCell;
use crate::gc::context::Context;
use crate::gc::heap::{live_at, Heap};
use crate::gc::trace::Trace;
use crate::object::boxed::{HeapObject, LispFloat, LispString};
use crate::object::cons::Cons;
use crate::object::func::{CodeVec, LispFn, SubrFn};
use crate::object::tagged::{GcObj, Object};
use crate::object::vector::LispVec;
use crate::structure::{
    deref, lemma_deref_preserved, lemma_deref_valid, live_slots, preserved, within, within_depth,
};
use vstd::prelude::*;

verus! {

/// What values mean something in: a heap and a table of symbols.
pub struct World {
    pub heap: Heap,
    pub syms: Seq<SymbolCell>,
}

impl Context {
    /// The heap and the symbols of the context.
    pub open spec fn world(&self) -> World {
        World { heap: self.block@, syms: self.symbols@ }
    }
}

/// Whether the value `b` of the world `d` is a copy of the value `a` of
/// the world `s`, to a depth of `fuel` references: the same integer, a
/// symbol of the same name, or a reference to an object of the same
/// variant whose parts are copies of the parts.
pub open spec fn copies(s: World, a: GcObj, d: World, b: GcObj, fuel: nat) -> bool
    decreases fuel, 0nat,
{
    match a@ {
        Object::Int(_) => b == a,
        Object::Symbol(x) => {
            &&& b@ matches Object::Symbol(y)
            &&& x.id < s.syms.len()
            &&& y.id < d.syms.len()
            &&& d.syms[y.id as int].name@ == s.syms[x.id as int].name@
        },
        _ => fuel > 0 && match (deref(s.heap, a), deref(d.heap, b)) {
            (Some(HeapObject::Float(x)), Some(HeapObject::Float(y))) => x.bits == y.bits,
            (Some(HeapObject::String(x)), Some(HeapObject::String(y))) => x.text@ == y.text@,
            (Some(HeapObject::Cons(x)), Some(HeapObject::Cons(y))) => copies(
                s,
                x.car,
                d,
                y.car,
                (fuel - 1) as nat,
            ) && copies(s, x.cdr, d, y.cdr, (fuel - 1) as nat),
            (Some(HeapObject::Vec(x)), Some(HeapObject::Vec(y))) => copies_all(
                s,
                x@,
                d,
                y@,
                (fuel - 1) as nat,
            ),
            (Some(HeapObject::LispFn(x)), Some(HeapObject::LispFn(y))) => x.body.op_codes.0@
                == y.body.op_codes.0@ && x.args == y.args && copies_all(
                s,
                x.body.constants@,
                d,
                y.body.constants@,
                (fuel - 1) as nat,
            ),
            (Some(HeapObject::SubrFn(x)), Some(HeapObject::SubrFn(y))) => x.subr == y.subr
                && x.args == y.args && x.name@ == y.name@,
            _ => false,
        },
    }
}

/// Whether the values `bs` are copies of the values `xs`, one by one.
pub open spec fn copies_all(s: World, xs: Seq<GcObj>, d: World, bs: Seq<GcObj>, fuel: nat) -> bool
    decreases fuel, 1nat,
{
    xs.len() == bs.len() && forall|i: int|
        #![trigger xs[i]]
        0 <= i < xs.len() ==> copies(s, xs[i], d, bs[i], fuel)
}

/// Whether the state `b` holds all that the state `a` holds: the same
/// roots and environment, the same symbols and maybe more, the same
/// objects in the same slots and maybe more.
pub open spec fn extends(a: &Context, b: &Context) -> bool {
    &&& b.roots@ == a.roots@
    &&& b.env == a.env
    &&& b.features == a.features
    &&& b.threshold == a.threshold
    &&& a.symbols@.len() <= b.symbols@.len()
    &&& forall|i: int| 0 <= i < a.symbols@.len() ==> #[trigger] b.symbols@[i] == a.symbols@[i]
    &&& forall|i: int|
        live_at(a.block@, i) ==> live_at(b.block@, i) && #[trigger] b.block@[i] == a.block@[i]
    &&& forall|o: GcObj| a.valid(o) ==> #[trigger] b.valid(o)
}

/// What extends an extension extends what that one extended.
pub proof fn lemma_extends_trans(a: &Context, b: &Context, c: &Context)
    requires
        extends(a, b),
        extends(b, c),
    ensures
        extends(a, c),
{
    assert forall|i: int| 0 <= i < a.symbols@.len() implies #[trigger] c.symbols@[i]
        == a.symbols@[i] by {
        assert(b.symbols@[i] == a.symbols@[i]);
    }
    assert forall|i: int| live_at(a.block@, i) implies live_at(c.block@, i) && #[trigger] c.block@[i]
        == a.block@[i] by {
        assert(b.block@[i] == a.block@[i]);
    }
    assert forall|o: GcObj| a.valid(o) implies #[trigger] c.valid(o) by {
        assert(b.valid(o));
    }
}

/// An extension preserves every object, and every valid value refers to
/// nothing but those.
pub proof fn lemma_extends_preserves(a: &Context, b: &Context)
    requires
        a.wf(),
        extends(a, b),
    ensures
        preserved(a.block@, b.block@, live_slots(a.block@)),
        forall|o: GcObj| a.valid(o) ==> #[trigger] within(live_slots(a.block@), o),
{
    let keep = live_slots(a.block@);
    assert forall|i: int| #[trigger] keep.contains(i) implies live_at(a.block@, i) && live_at(
        b.block@,
        i,
    ) && crate::structure::same_payload(a.block@[i].unwrap(), b.block@[i].unwrap()) by {
        assert(b.block@[i] == a.block@[i]);
    }
    assert forall|i: int, o: GcObj|
        keep.contains(i) && #[trigger] a.block@[i].unwrap().refs().contains(o) implies within(
        keep,
        o,
    ) by {
        assert(a.valid(o));
    }
}

/// A copy stays a copy when the world that it lives in is extended.
pub proof fn lemma_copies_extends(
    s: World,
    a: GcObj,
    d: World,
    d2: World,
    keep: Set<int>,
    b: GcObj,
    fuel: nat,
)
    requires
        copies(s, a, d, b, fuel),
        preserved(d.heap, d2.heap, keep),
        within(keep, b),
        d.syms.len() <= d2.syms.len(),
        forall|i: int| 0 <= i < d.syms.len() ==> #[trigger] d2.syms[i] == d.syms[i],
    ensures
        copies(s, a, d2, b, fuel),
    decreases fuel, 0nat,
{
    match a@ {
        Object::Int(_) => {},
        Object::Symbol(_) => {},
        _ => {
            lemma_deref_preserved(d.heap, d2.heap, keep, b);
            match (deref(s.heap, a), deref(d.heap, b)) {
                (Some(HeapObject::Cons(x)), Some(HeapObject::Cons(y))) => {
                    assert(HeapObject::Cons(y).refs().contains(y.car));
                    assert(HeapObject::Cons(y).refs().contains(y.cdr));
                    lemma_copies_extends(s, x.car, d, d2, keep, y.car, (fuel - 1) as nat);
                    lemma_copies_extends(s, x.cdr, d, d2, keep, y.cdr, (fuel - 1) as nat);
                },
                (Some(HeapObject::Vec(x)), Some(HeapObject::Vec(y))) => {
                    assert forall|i: int| 0 <= i < y@.len() implies within(keep, #[trigger] y@[i]) by {
                        assert(y@[i].refs().contains(y@[i]));
                        assert(HeapObject::Vec(y).refs().contains(y@[i]));
                    }
                    lemma_copies_all_extends(s, x@, d, d2, keep, y@, (fuel - 1) as nat);
                    let y2 = deref(d2.heap, b).unwrap()->Vec_0;
                    assert(y2.items == y.items);
                },
                (Some(HeapObject::LispFn(x)), Some(HeapObject::LispFn(y))) => {
                    let xs = x.body.constants@;
                    let ys = y.body.constants@;
                    assert forall|i: int| 0 <= i < ys.len() implies within(keep, #[trigger] ys[i]) by {
                        assert(ys[i].refs().contains(ys[i]));
                        assert(HeapObject::LispFn(y).refs().contains(ys[i]));
                    }
                    lemma_copies_all_extends(s, xs, d, d2, keep, ys, (fuel - 1) as nat);
                    let y2 = deref(d2.heap, b).unwrap()->LispFn_0;
                    assert(y2.body == y.body);
                },
                _ => {},
            }
        },
    }
}

/// Copies stay copies when the world that they live in is extended.
pub proof fn lemma_copies_all_extends(
    s: World,
    xs: Seq<GcObj>,
    d: World,
    d2: World,
    keep: Set<int>,
    bs: Seq<GcObj>,
    fuel: nat,
)
    requires
        copies_all(s, xs, d, bs, fuel),
        preserved(d.heap, d2.heap, keep),
        forall|i: int| 0 <= i < bs.len() ==> within(keep, #[trigger] bs[i]),
        d.syms.len() <= d2.syms.len(),
        forall|i: int| 0 <= i < d.syms.len() ==> #[trigger] d2.syms[i] == d.syms[i],
    ensures
        copies_all(s, xs, d2, bs, fuel),
    decreases fuel, 1nat,
{
    assert forall|i: int| #![trigger xs[i]] 0 <= i < xs.len() implies copies(
        s,
        xs[i],
        d2,
        bs[i],
        fuel,
    ) by {
        assert(copies(s, xs[i], d, bs[i], fuel));
        assert(within(keep, bs[i]));
        lemma_copies_extends(s, xs[i], d, d2, keep, bs[i], fuel);
    }
}

/// A copy of a vector of bytes.
pub fn copy_bytes(bytes: &Vec<u8>) -> (v: Vec<u8>)
    ensures
        v@ == bytes@,
{
    let mut v: Vec<u8> = Vec::new();
    let mut i: usize = 0;
    while i < bytes.len()
        invariant
            i <= bytes.len(),
            v@ == bytes@.take(i as int),
        decreases bytes.len() - i,
    {
        v.push(bytes[i]);
        assert(v@ =~= bytes@.take(i + 1));
        i += 1;
    }
    assert(bytes@.take(bytes@.len() as int) =~= bytes@);
    v
}

/// Whether a copy into the state `d` may have failed for want of room:
/// for objects or for symbols.
pub open spec fn out_of_room(d: &Context) -> bool {
    d.block.full() || !d.symbols.has_room()
}

/// Copies the structure of the value `o` of the context `src` into the
/// context `dst`, and returns the copy. Symbols are interned in `dst` by
/// their names. Nothing is collected in `dst`, and nothing that it held
/// changes. Fails on a structure deeper than `fuel` references, as a
/// circular one is, and when `dst` runs out of room.
pub fn clone_obj(src: &Context, o: GcObj, dst: &mut Context, fuel: usize) -> (r: Option<GcObj>)
    requires
        src.wf(),
        src.valid(o),
        old(dst).wf(),
    ensures
        final(dst).wf(),
        extends(old(dst), final(dst)),
        match r {
            Some(b) => copies(src.world(), o, final(dst).world(), b, fuel as nat) && final(dst).valid(b),
            None => !within_depth(src.block@, o, fuel as nat) || out_of_room(final(dst)),
        },
    decreases fuel, 0nat,
{
    proof {
        lemma_deref_valid(src.block@, src.symbols@.len(), o);
    }
    match o.get() {
        Object::Int(_) => Some(o),
        Object::Symbol(x) => {
            let name = src.symbols.name(x);
            match dst.symbols.lookup(name) {
                Some(y) => Some(GcObj::from_symbol(y)),
                None => {
                    if dst.symbols.len() as u64 >= crate::object::tagged::PAYLOAD_LIMIT {
                        None
                    } else {
                        let y = dst.intern(name);
                        Some(GcObj::from_symbol(y))
                    }
                },
            }
        },
        Object::Float(x) => {
            if fuel == 0 {
                return None;
            }
            let bits = src.block.float(x).bits;
            let r = dst.add_now(HeapObject::Float(LispFloat::new(bits)));
            proof {
                if r is Some {
                    lemma_deref_valid(dst.block@, dst.symbols@.len(), r.unwrap());
                }
            }
            r
        },
        Object::String(x) => {
            if fuel == 0 {
                return None;
            }
            let text = src.block.string(x).text.clone();
            let r = dst.add_now(HeapObject::String(LispString::new(text)));
            proof {
                if r is Some {
                    lemma_deref_valid(dst.block@, dst.symbols@.len(), r.unwrap());
                }
            }
            r
        },
        Object::SubrFn(x) => {
            if fuel == 0 {
                return None;
            }
            let f = src.block.subr(x);
            let r = dst.add_now(HeapObject::SubrFn(SubrFn::new(f.subr, f.args, f.name)));
            proof {
                if r is Some {
                    lemma_deref_valid(dst.block@, dst.symbols@.len(), r.unwrap());
                }
            }
            r
        },
        Object::Cons(x) => {
            if fuel == 0 {
                return None;
            }
            let ghost cell = src.block.obj(x)->Cons_0;
            let car = match clone_obj(src, src.car(x), dst, fuel - 1) {
                Some(c) => c,
                None => {
                    proof {
                        assert(src.block.obj(x).refs().contains(cell.car));
                    }
                    return None;
                },
            };
            let ghost d1 = *dst;
            let cdr = match clone_obj(src, src.cdr(x), dst, fuel - 1) {
                Some(c) => c,
                None => {
                    proof {
                        assert(src.block.obj(x).refs().contains(cell.cdr));
                        lemma_extends_trans(old(dst), &d1, dst);
                    }
                    return None;
                },
            };
            let ghost d2 = *dst;
            proof {
                lemma_extends_trans(old(dst), &d1, &d2);
                lemma_extends_preserves(&d1, &d2);
                lemma_copies_extends(
                    src.world(),
                    cell.car,
                    d1.world(),
                    d2.world(),
                    live_slots(d1.block@),
                    car,
                    (fuel - 1) as nat,
                );
            }
            let obj = HeapObject::Cons(Cons::new(car, cdr));
            assert(obj.refs().contains(car) && obj.refs().contains(cdr));
            let r = dst.add_now(obj);
            proof {
                lemma_extends_trans(old(dst), &d2, dst);
                if r is Some {
                    lemma_deref_valid(dst.block@, dst.symbols@.len(), r.unwrap());
                    lemma_extends_preserves(&d2, dst);
                    lemma_copies_extends(
                        src.world(),
                        cell.car,
                        d2.world(),
                        dst.world(),
                        live_slots(d2.block@),
                        car,
                        (fuel - 1) as nat,
                    );
                    lemma_copies_extends(
                        src.world(),
                        cell.cdr,
                        d2.world(),
                        dst.world(),
                        live_slots(d2.block@),
                        cdr,
                        (fuel - 1) as nat,
                    );
                }
            }
            r
        },
        Object::Vec(x) => {
            if fuel == 0 {
                return None;
            }
            let v = src.block.vector(x);
            proof {
                assert forall|i: int| 0 <= i < v.items@.len() implies src.valid(
                    #[trigger] v.items@[i],
                ) by {
                    assert(v@[i].refs().contains(v@[i]));
                    assert(src.block@[x.idx as int].unwrap().refs().contains(v@[i]));
                }
            }
            let items = match clone_all(src, &v.items, dst, fuel - 1) {
                Some(items) => items,
                None => {
                    proof {
                        if !out_of_room(dst) {
                            let i = choose|i: int|
                                0 <= i < v@.len() && !within_depth(
                                    src.block@,
                                    #[trigger] v@[i],
                                    (fuel - 1) as nat,
                                );
                            assert(v@[i].refs().contains(v@[i]));
                            assert(src.block.obj(x).refs().contains(v@[i]));
                        }
                    }
                    return None;
                },
            };
            let ghost d1 = *dst;
            let ghost copied = items@;
            let obj = HeapObject::Vec(LispVec::new(items));
            proof {
                assert forall|c: GcObj| #[trigger] obj.refs().contains(c) implies dst.valid(c) by {
                    crate::gc::trace::lemma_seq_refs_objs(copied, c);
                    let k = choose|k: int| 0 <= k < copied.len() && copied[k] == c;
                    assert(dst.valid(copied[k]));
                }
            }
            let r = dst.add_now(obj);
            proof {
                lemma_extends_trans(old(dst), &d1, dst);
                if r is Some {
                    lemma_deref_valid(dst.block@, dst.symbols@.len(), r.unwrap());
                    lemma_extends_preserves(&d1, dst);
                    assert forall|i: int| 0 <= i < copied.len() implies within(
                        live_slots(d1.block@),
                        #[trigger] copied[i],
                    ) by {
                        assert(d1.valid(copied[i]));
                    }
                    lemma_copies_all_extends(
                        src.world(),
                        v@,
                        d1.world(),
                        dst.world(),
                        live_slots(d1.block@),
                        copied,
                        (fuel - 1) as nat,
                    );
                }
            }
            r
        },
        Object::LispFn(x) => {
            if fuel == 0 {
                return None;
            }
            let f = src.block.lisp_fn(x);
            let ghost consts = f.body.constants@;
            proof {
                assert forall|i: int| 0 <= i < consts.len() implies src.valid(
                    #[trigger] consts[i],
                ) by {
                    assert(consts[i].refs().contains(consts[i]));
                    assert(src.block@[x.idx as int].unwrap().refs().contains(consts[i]));
                }
            }
            let items = match clone_all(src, &f.body.constants, dst, fuel - 1) {
                Some(items) => items,
                None => {
                    proof {
                        if !out_of_room(dst) {
                            let i = choose|i: int|
                                0 <= i < consts.len() && !within_depth(
                                    src.block@,
                                    #[trigger] consts[i],
                                    (fuel - 1) as nat,
                                );
                            assert(consts[i].refs().contains(consts[i]));
                            assert(src.block.obj(x).refs().contains(consts[i]));
                        }
                    }
                    return None;
                },
            };
            let ghost d1 = *dst;
            let ghost copied = items@;
            let copy = LispFn::new(CodeVec(copy_bytes(&f.body.op_codes.0)), items, f.args);
            let obj = HeapObject::LispFn(copy);
            proof {
                assert forall|c: GcObj| #[trigger] obj.refs().contains(c) implies dst.valid(c) by {
                    crate::gc::trace::lemma_seq_refs_objs(copied, c);
                    let k = choose|k: int| 0 <= k < copied.len() && copied[k] == c;
                    assert(dst.valid(copied[k]));
                }
            }
            let r = dst.add_now(obj);
            proof {
                lemma_extends_trans(old(dst), &d1, dst);
                if r is Some {
                    lemma_deref_valid(dst.block@, dst.symbols@.len(), r.unwrap());
                    lemma_extends_preserves(&d1, dst);
                    assert forall|i: int| 0 <= i < copied.len() implies within(
                        live_slots(d1.block@),
                        #[trigger] copied[i],
                    ) by {
                        assert(d1.valid(copied[i]));
                    }
                    lemma_copies_all_extends(
                        src.world(),
                        consts,
                        d1.world(),
                        dst.world(),
                        live_slots(d1.block@),
                        copied,
                        (fuel - 1) as nat,
                    );
                }
            }
            r
        },
    }
}

/// Copies the values `items` of the context `src` into the context `dst`,
/// one by one.
pub fn clone_all(src: &Context, items: &Vec<GcObj>, dst: &mut Context, fuel: usize) -> (r: Option<
    Vec<GcObj>,
>)
    requires
        src.wf(),
        src.all_valid(items@),
        old(dst).wf(),
    ensures
        final(dst).wf(),
        extends(old(dst), final(dst)),
        match r {
            Some(v) => copies_all(src.world(), items@, final(dst).world(), v@, fuel as nat)
                && final(dst).all_valid(v@),
            None => out_of_room(final(dst)) || exists|i: int|
                0 <= i < items@.len() && !within_depth(src.block@, #[trigger] items@[i], fuel as nat),
        },
    decreases fuel, 1nat,
{
    let mut out: Vec<GcObj> = Vec::new();
    let mut i: usize = 0;
    while i < items.len()
        invariant
            i <= items.len(),
            src.wf(),
            src.all_valid(items@),
            dst.wf(),
            extends(old(dst), dst),
            out@.len() == i,
            dst.all_valid(out@),
            forall|k: int|
                #![trigger items@[k]]
                0 <= k < i ==> copies(src.world(), items@[k], dst.world(), out@[k], fuel as nat),
        decreases items.len() - i,
    {
        let ghost d1 = *dst;
        let ghost done = out@;
        match clone_obj(src, items[i], dst, fuel) {
            Some(c) => {
                proof {
                    lemma_extends_trans(old(dst), &d1, dst);
                    lemma_extends_preserves(&d1, dst);
                    assert forall|k: int| #![trigger items@[k]] 0 <= k < i implies copies(
                        src.world(),
                        items@[k],
                        dst.world(),
                        done[k],
                        fuel as nat,
                    ) by {
                        assert(d1.valid(done[k]));
                        lemma_copies_extends(
                            src.world(),
                            items@[k],
                            d1.world(),
                            dst.world(),
                            live_slots(d1.block@),
                            done[k],
                            fuel as nat,
                        );
                    }
                    assert forall|k: int| 0 <= k < done.len() implies dst.valid(#[trigger] done[k]) by {
                        assert(d1.valid(done[k]));
                    }
                }
                out.push(c);
            },
            None => {
                proof {
                    lemma_extends_trans(old(dst), &d1, dst);
                }
                return None;
            },
        }
        i += 1;
    }
    Some(out)
}

impl LispFn {
    /// A copy of the function for the context `dst`: the same op-codes
    /// and argument requirements, fresh mark word, and the constants
    /// copied from the context `src` into `dst`. Fails when a constant is
    /// circular, and when `dst` runs out of room.
    pub fn clone_in(&self, src: &Context, dst: &mut Context) -> (r: Option<LispFn>)
        requires
            src.wf(),
            src.all_valid(self.body.constants@),
            old(dst).wf(),
        ensures
            final(dst).wf(),
            extends(old(dst), final(dst)),
            match r {
                Some(f) => {
                    &&& f.gc.bits == 0
                    &&& f.args == self.args
                    &&& f.body.op_codes.0@ == self.body.op_codes.0@
                    &&& copies_all(
                        src.world(),
                        self.body.constants@,
                        final(dst).world(),
                        f.body.constants@,
                        src.block@.len(),
                    )
                    &&& final(dst).all_valid(f.body.constants@)
                },
                None => out_of_room(final(dst)) || exists|i: int|
                    0 <= i < self.body.constants@.len() && !within_depth(
                        src.block@,
                        #[trigger] self.body.constants@[i],
                        src.block@.len(),
                    ),
            },
    {
        match clone_all(src, &self.body.constants, dst, src.block.capacity()) {
            Some(consts) => Some(
                LispFn::new(CodeVec(copy_bytes(&self.body.op_codes.0)), consts, self.args),
            ),
            None => None,
        }
    }
}

impl Context {
    /// Copies the structure of the value `o` of the context `src` into
    /// this one, and returns the copy. Fails on a circular structure, and
    /// when this context runs out of room.
    pub fn clone_from_context(&mut self, src: &Context, o: GcObj) -> (r: Option<GcObj>)
        requires
            src.wf(),
            src.valid(o),
            old(self).wf(),
        ensures
            final(self).wf(),
            extends(old(self), final(self)),
            match r {
                Some(b) => copies(src.world(), o, final(self).world(), b, src.block@.len())
                    && final(self).valid(b),
                None => !within_depth(src.block@, o, src.block@.len()) || out_of_room(final(self)),
            },
    {
        clone_obj(src, o, self, src.block.capacity())
    }
}

} // verus!
