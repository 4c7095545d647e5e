//! The mark word of a boxed object.
use vstd::prelude::*;

verus! {

/// The mark word that every boxed object carries. Bit 0 says whether the
/// object was visited in the current mark phase; the other bits belong to
/// the allocator and are carried along untouched.
#[derive(Clone, Copy, Debug, PartialEq, Eq, Structural)]
pub struct GcMark {
    pub bits: u8,
}

impl GcMark {
    /// Whether the visited bit is set.
    pub open spec fn marked(self) -> bool {
        self.bits % 2 == 1
    }

    /// The allocator's bits.
    pub open spec fn meta(self) -> int {
        self.bits as int / 2
    }

    /// The word with the same allocator bits and the visited bit as given.
    pub open spec fn with_mark(self, marked: bool) -> GcMark {
        GcMark { bits: (2 * self.meta() + if marked { 1int } else { 0int }) as u8 }
    }

    /// A cleared mark word.
    pub fn new() -> (m: GcMark)
        ensures
            m.bits == 0,
            !m.marked(),
    {
        GcMark { bits: 0 }
    }

    /// Sets the visited bit.
    pub fn mark(&mut self)
        ensures
            *final(self) == old(self).with_mark(true),
            final(self).marked(),
            final(self).meta() == old(self).meta(),
    {
        let b = self.bits;
        assert((b | 1u8) as int == 2 * (b as int / 2) + 1) by (bit_vector);
        self.bits = b | 1;
    }

    /// Clears the visited bit.
    pub fn unmark(&mut self)
        ensures
            *final(self) == old(self).with_mark(false),
            !final(self).marked(),
            final(self).meta() == old(self).meta(),
    {
        let b = self.bits;
        assert((b & 0xfeu8) as int == 2 * (b as int / 2)) by (bit_vector);
        self.bits = b & 0xfe;
    }

    /// Whether the visited bit is set.
    pub fn is_marked(&self) -> (b: bool)
        ensures
            b == self.marked(),
    {
        let b = self.bits;
        assert((b & 1u8 == 1u8) == (b % 2 == 1)) by (bit_vector);
        self.bits & 1 == 1
    }
}

/// Setting a visited bit that is already as wanted changes nothing, and
/// the last setting wins.
pub proof fn lemma_with_mark(m: GcMark, a: bool, b: bool)
    ensures
        m.with_mark(a).with_mark(b) == m.with_mark(b),
        m.with_mark(m.marked()) == m,
        m.with_mark(a).marked() == a,
        m.with_mark(a).meta() == m.meta(),
{
}

} // verus!
