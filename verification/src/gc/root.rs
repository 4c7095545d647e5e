//! The root set: the slots that keep values alive across collections.
use crate::gc::trace::{GcState, Trace};
use crate::object::tagged::GcObj;
use vstd::prelude::*;

verus! {

/// What a root slot keeps alive.
#[derive(Debug)]
pub enum Rooted {
    /// A slot that holds nothing yet.
    Empty,
    /// One value.
    Obj(GcObj),
    /// A vector of values, such as the arguments of a call.
    Objs(Vec<GcObj>),
}

impl Rooted {
    /// The values in the slot, in order.
    pub open spec fn objs(self) -> Seq<GcObj> {
        match self {
            Rooted::Empty => Seq::empty(),
            Rooted::Obj(o) => seq![o],
            Rooted::Objs(v) => v@,
        }
    }
}

/// Puts a value at the end of the vector in a slot that holds one.
fn slot_push(slot: &mut Rooted, o: GcObj)
    requires
        *old(slot) is Objs,
    ensures
        *final(slot) is Objs,
        final(slot).objs() == old(slot).objs().push(o),
{
    match slot {
        Rooted::Objs(v) => {
            v.push(o);
        },
        _ => {},
    }
}

impl Trace for Rooted {
    open spec fn refs(&self) -> Set<GcObj> {
        match self {
            Rooted::Empty => Set::empty(),
            Rooted::Obj(o) => o.refs(),
            Rooted::Objs(v) => v.refs(),
        }
    }

    /// What the slot holds, in order.
    open spec fn trail(&self) -> Seq<GcObj> {
        self.objs()
    }

    open spec fn ordered(&self) -> bool {
        true
    }

    fn trace(&self, state: &mut GcState) {
        match self {
            Rooted::Empty => {
                proof {
                    crate::gc::trace::lemma_trailed_none(state@);
                }
            },
            Rooted::Obj(o) => o.trace(state),
            Rooted::Objs(v) => {
                v.trace(state);
                proof {
                    crate::gc::trace::lemma_objs_trail(v@, v@.len() as int);
                    assert(v@.take(v@.len() as int) =~= v@);
                }
            },
        }
    }
}

/// A rooted handle: the place of a slot in the root set. It stays valid
/// across collections, until the slot is taken off again.
#[derive(Clone, Copy, Debug, PartialEq, Eq, Structural)]
pub struct Root {
    pub slot: usize,
}

/// The active root slots. Registrations stack: the slot registered last
/// is the first to go.
#[derive(Debug)]
pub struct RootSet {
    pub roots: Vec<Rooted>,
}

impl View for RootSet {
    type V = Seq<Rooted>;

    open spec fn view(&self) -> Seq<Rooted> {
        self.roots@
    }
}

impl Default for RootSet {
    /// A root set without slots.
    fn default() -> (r: RootSet)
        ensures
            r@ == Seq::<Rooted>::empty(),
    {
        RootSet { roots: Vec::new() }
    }
}

impl RootSet {
    /// Whether `r` names a slot of the set.
    pub open spec fn contains(&self, r: Root) -> bool {
        r.slot < self@.len()
    }

    /// Whether `r` names the slot that was registered last.
    pub open spec fn is_top(&self, r: Root) -> bool {
        r.slot + 1 == self@.len()
    }

    /// Number of active slots.
    pub fn len(&self) -> (n: usize)
        ensures
            n == self@.len(),
    {
        self.roots.len()
    }

    /// Registers a slot that holds `value`, on top of the others.
    pub fn register(&mut self, value: Rooted) -> (r: Root)
        ensures
            final(self)@ == old(self)@.push(value),
            r.slot == old(self)@.len(),
            final(self).is_top(r),
    {
        let slot = self.roots.len();
        self.roots.push(value);
        assert(self.roots.len() == self.roots@.len());
        Root { slot }
    }

    /// Takes the topmost slot off and hands back what it held. The slot
    /// has to be the one registered last.
    pub fn deregister(&mut self, r: Root) -> (value: Rooted)
        requires
            old(self).is_top(r),
        ensures
            final(self)@ == old(self)@.drop_last(),
            value == old(self)@.last(),
    {
        let value = self.roots.pop().unwrap();
        assert(self.roots@ =~= old(self).roots@.drop_last());
        value
    }

    /// Takes the slot off if it is the one registered last. A slot that
    /// is taken off out of order is refused: the set stays as it is.
    pub fn try_deregister(&mut self, r: Root) -> (value: Option<Rooted>)
        ensures
            match value {
                Some(v) => old(self).is_top(r) && final(self)@ == old(self)@.drop_last() && v
                    == old(self)@.last(),
                None => !old(self).is_top(r) && final(self)@ == old(self)@,
            },
    {
        if self.roots.len() > 0 && r.slot == self.roots.len() - 1 {
            Some(self.deregister(r))
        } else {
            None
        }
    }

    /// What the slot holds, if `r` names one.
    pub fn get(&self, r: Root) -> (value: Option<&Rooted>)
        ensures
            match value {
                Some(v) => self.contains(r) && *v == self@[r.slot as int],
                None => !self.contains(r),
            },
    {
        if r.slot < self.roots.len() {
            Some(&self.roots[r.slot])
        } else {
            None
        }
    }

    /// Puts a value at the end of the vector that the slot holds.
    pub fn push_obj(&mut self, r: Root, o: GcObj)
        requires
            old(self).contains(r),
            old(self)@[r.slot as int] is Objs,
        ensures
            final(self)@.len() == old(self)@.len(),
            final(self)@[r.slot as int] is Objs,
            final(self)@[r.slot as int].objs() == old(self)@[r.slot as int].objs().push(o),
            forall|i: int|
                0 <= i < old(self)@.len() && i != r.slot ==> final(self)@[i] == old(self)@[i],
    {
        slot_push(&mut self.roots[r.slot], o);
    }

    /// Replaces what the slot holds and hands back what it held before.
    pub fn replace(&mut self, r: Root, value: Rooted) -> (before: Rooted)
        requires
            old(self).contains(r),
        ensures
            final(self)@ == old(self)@.update(r.slot as int, value),
            before == old(self)@[r.slot as int],
    {
        let mut v = value;
        std::mem::swap(&mut self.roots[r.slot], &mut v);
        v
    }
}

impl Trace for RootSet {
    open spec fn refs(&self) -> Set<GcObj> {
        self.roots.refs()
    }

    /// What the slots hold, from the first registered to the last.
    open spec fn trail(&self) -> Seq<GcObj> {
        self.roots.trail()
    }

    open spec fn ordered(&self) -> bool {
        true
    }

    fn trace(&self, state: &mut GcState) {
        self.roots.trace(state);
        assert(self.roots.ordered());
    }
}

} // verus!
