//! Cons cells.
use crate::gc::mark::GcMark;
use crate::gc::trace::{lemma_traced_then, lemma_trailed_then, GcState, Trace};
use crate::object::tagged::GcObj;
use vstd::prelude::*;

verus! {

/// A pair of values, the element of list structure.
#[derive(Debug)]
pub struct Cons {
    pub gc: GcMark,
    pub car: GcObj,
    pub cdr: GcObj,
}

impl Cons {
    /// A fresh, unmarked cell.
    pub fn new(car: GcObj, cdr: GcObj) -> (c: Cons)
        ensures
            c.car == car,
            c.cdr == cdr,
            c.gc.bits == 0,
    {
        Cons { gc: GcMark::new(), car, cdr }
    }

    /// The first of the pair.
    pub fn car(&self) -> (v: GcObj)
        ensures
            v == self.car,
    {
        self.car
    }

    /// The second of the pair.
    pub fn cdr(&self) -> (v: GcObj)
        ensures
            v == self.cdr,
    {
        self.cdr
    }

    /// Replaces the first of the pair.
    pub fn set_car(&mut self, v: GcObj)
        ensures
            final(self).car == v,
            final(self).cdr == old(self).cdr,
            final(self).gc == old(self).gc,
    {
        self.car = v;
    }

    /// Replaces the second of the pair.
    pub fn set_cdr(&mut self, v: GcObj)
        ensures
            final(self).cdr == v,
            final(self).car == old(self).car,
            final(self).gc == old(self).gc,
    {
        self.cdr = v;
    }
}

impl Trace for Cons {
    open spec fn refs(&self) -> Set<GcObj> {
        set![self.car, self.cdr]
    }

    /// The first of the pair, then the second.
    open spec fn trail(&self) -> Seq<GcObj> {
        seq![self.car, self.cdr]
    }

    open spec fn ordered(&self) -> bool {
        true
    }

    fn trace(&self, state: &mut GcState) {
        self.car.trace(state);
        let ghost mid = state@;
        self.cdr.trace(state);
        proof {
            lemma_traced_then(old(state)@, mid, state@, set![self.car], set![self.cdr]);
            assert(set![self.car].union(set![self.cdr]) =~= set![self.car, self.cdr]);
            lemma_trailed_then(
                old(state)@,
                mid,
                state@,
                seq![self.car],
                true,
                seq![self.cdr],
                true,
            );
            assert(seq![self.car] + seq![self.cdr] =~= seq![self.car, self.cdr]);
        }
    }
}

} // verus!
