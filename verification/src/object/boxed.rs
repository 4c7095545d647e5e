//! The boxed objects: what a reference can refer to.
use crate::gc::mark::GcMark;
use crate::gc::trace::{GcState, Trace};
use crate::object::cons::Cons;
use crate::object::func::{LispFn, SubrFn};
use crate::object::tagged::{GcObj, Tag};
use crate::object::vector::LispVec;
use vstd::prelude::*;

verus! {

/// A boxed float, held by its bit pattern.
#[derive(Debug)]
pub struct LispFloat {
    pub gc: GcMark,
    /// The 64 bits of the IEEE-754 value.
    pub bits: u64,
}

impl LispFloat {
    /// A fresh, unmarked float with the given bit pattern.
    pub fn new(bits: u64) -> (f: LispFloat)
        ensures
            f.gc.bits == 0,
            f.bits == bits,
    {
        LispFloat { gc: GcMark::new(), bits }
    }
}

/// An immutable string.
#[derive(Debug)]
pub struct LispString {
    pub gc: GcMark,
    pub text: String,
}

impl LispString {
    /// A fresh, unmarked string with the given text.
    pub fn new(text: String) -> (s: LispString)
        ensures
            s.gc.bits == 0,
            s.text == text,
    {
        LispString { gc: GcMark::new(), text }
    }
}

/// An object of the arena: what a boxed tagged value refers to.
#[derive(Debug)]
pub enum HeapObject {
    Float(LispFloat),
    String(LispString),
    Cons(Cons),
    Vec(LispVec),
    LispFn(LispFn),
    SubrFn(SubrFn),
}

impl HeapObject {
    /// The tag that a reference to this object carries.
    pub open spec fn kind(self) -> Tag {
        match self {
            HeapObject::Float(_) => Tag::Float,
            HeapObject::String(_) => Tag::String,
            HeapObject::Cons(_) => Tag::Cons,
            HeapObject::Vec(_) => Tag::Vec,
            HeapObject::LispFn(_) => Tag::LispFn,
            HeapObject::SubrFn(_) => Tag::SubrFn,
        }
    }

    /// The mark word.
    pub open spec fn gc(self) -> GcMark {
        match self {
            HeapObject::Float(x) => x.gc,
            HeapObject::String(x) => x.gc,
            HeapObject::Cons(x) => x.gc,
            HeapObject::Vec(x) => x.gc,
            HeapObject::LispFn(x) => x.gc,
            HeapObject::SubrFn(x) => x.gc,
        }
    }

    /// The same object with another mark word.
    pub open spec fn with_gc(self, gc: GcMark) -> HeapObject {
        match self {
            HeapObject::Float(x) => HeapObject::Float(LispFloat { gc, bits: x.bits }),
            HeapObject::String(x) => HeapObject::String(LispString { gc, text: x.text }),
            HeapObject::Cons(x) => HeapObject::Cons(Cons { gc, car: x.car, cdr: x.cdr }),
            HeapObject::Vec(x) => HeapObject::Vec(
                LispVec { gc, items: x.items, readers: x.readers },
            ),
            HeapObject::LispFn(x) => HeapObject::LispFn(LispFn { gc, body: x.body, args: x.args }),
            HeapObject::SubrFn(x) => HeapObject::SubrFn(
                SubrFn { gc, subr: x.subr, args: x.args, name: x.name },
            ),
        }
    }

    /// The same object with the visited bit as given.
    pub open spec fn with_mark(self, marked: bool) -> HeapObject {
        self.with_gc(self.gc().with_mark(marked))
    }

    /// Whether the visited bit is set.
    pub open spec fn marked(self) -> bool {
        self.gc().marked()
    }

    /// The tag that a reference to this object carries.
    pub fn tag(&self) -> (t: Tag)
        ensures
            t == self.kind(),
    {
        match self {
            HeapObject::Float(_) => Tag::Float,
            HeapObject::String(_) => Tag::String,
            HeapObject::Cons(_) => Tag::Cons,
            HeapObject::Vec(_) => Tag::Vec,
            HeapObject::LispFn(_) => Tag::LispFn,
            HeapObject::SubrFn(_) => Tag::SubrFn,
        }
    }

    /// Whether the object was visited in the current mark phase.
    pub fn is_marked(&self) -> (b: bool)
        ensures
            b == self.marked(),
    {
        match self {
            HeapObject::Float(x) => x.gc.is_marked(),
            HeapObject::String(x) => x.gc.is_marked(),
            HeapObject::Cons(x) => x.gc.is_marked(),
            HeapObject::Vec(x) => x.gc.is_marked(),
            HeapObject::LispFn(x) => x.is_marked(),
            HeapObject::SubrFn(x) => x.gc.is_marked(),
        }
    }

    /// Sets the visited bit and puts the references that leave the object
    /// on the work stack.
    pub fn mark(&mut self, state: &mut GcState)
        ensures
            *final(self) == old(self).with_mark(true),
            crate::gc::trace::traced(old(state)@, final(state)@, old(self).refs()),
            crate::gc::trace::trailed(old(state)@, final(state)@, old(self).trail(), true),
    {
        proof {
            crate::gc::trace::lemma_trailed_none(state@);
        }
        match self {
            HeapObject::Float(x) => {
                x.gc.mark();
            },
            HeapObject::String(x) => {
                x.gc.mark();
            },
            HeapObject::Cons(x) => {
                x.gc.mark();
                x.trace(state);
            },
            HeapObject::Vec(x) => {
                x.gc.mark();
                x.trace(state);
            },
            HeapObject::LispFn(x) => {
                x.mark(state);
            },
            HeapObject::SubrFn(x) => {
                x.gc.mark();
            },
        }
    }

    /// Clears the visited bit.
    pub fn unmark(&mut self)
        ensures
            *final(self) == old(self).with_mark(false),
    {
        match self {
            HeapObject::Float(x) => {
                x.gc.unmark();
            },
            HeapObject::String(x) => {
                x.gc.unmark();
            },
            HeapObject::Cons(x) => {
                x.gc.unmark();
            },
            HeapObject::Vec(x) => {
                x.gc.unmark();
            },
            HeapObject::LispFn(x) => {
                x.unmark();
            },
            HeapObject::SubrFn(x) => {
                x.gc.unmark();
            },
        }
    }
}

impl Trace for HeapObject {
    open spec fn refs(&self) -> Set<GcObj> {
        match self {
            HeapObject::Float(_) => Set::empty(),
            HeapObject::String(_) => Set::empty(),
            HeapObject::Cons(x) => x.refs(),
            HeapObject::Vec(x) => x.refs(),
            HeapObject::LispFn(x) => x.refs(),
            HeapObject::SubrFn(_) => Set::empty(),
        }
    }

    /// The parts of a pair, the items of a vector, the constants of a
    /// function, in their order.
    open spec fn trail(&self) -> Seq<GcObj> {
        match self {
            HeapObject::Float(_) => Seq::empty(),
            HeapObject::String(_) => Seq::empty(),
            HeapObject::Cons(x) => x.trail(),
            HeapObject::Vec(x) => x.trail(),
            HeapObject::LispFn(x) => x.trail(),
            HeapObject::SubrFn(_) => Seq::empty(),
        }
    }

    open spec fn ordered(&self) -> bool {
        true
    }

    fn trace(&self, state: &mut GcState) {
        proof {
            crate::gc::trace::lemma_trailed_none(state@);
        }
        match self {
            HeapObject::Float(_) => {},
            HeapObject::String(_) => {},
            HeapObject::Cons(x) => x.trace(state),
            HeapObject::Vec(x) => x.trace(state),
            HeapObject::LispFn(x) => x.trace(state),
            HeapObject::SubrFn(_) => {},
        }
    }
}

/// The mark word does not bear on what an object is or refers to, and
/// setting the visited bit twice is setting it once.
pub proof fn lemma_with_mark(o: HeapObject, a: bool, b: bool)
    ensures
        o.with_mark(a).refs() == o.refs(),
        o.with_mark(a).kind() == o.kind(),
        o.with_mark(a).marked() == a,
        o.with_mark(a).with_mark(b) == o.with_mark(b),
        o.with_mark(o.marked()) == o,
{
    crate::gc::mark::lemma_with_mark(o.gc(), a, b);
}

} // verus!
