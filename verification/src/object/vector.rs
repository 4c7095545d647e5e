//! Vectors.
use crate::error::Error;
use crate::gc::mark::GcMark;
use crate::gc::trace::{GcState, Trace};
use crate::object::tagged::GcObj;
use vstd::prelude::*;

verus! {

/// A vector of values that can be written in place. While readers hold
/// it (`readers` counts them) it cannot be written.
#[derive(Debug)]
pub struct LispVec {
    pub gc: GcMark,
    pub items: Vec<GcObj>,
    pub readers: usize,
}

impl View for LispVec {
    type V = Seq<GcObj>;

    open spec fn view(&self) -> Seq<GcObj> {
        self.items@
    }
}

impl LispVec {
    /// A fresh, unmarked vector that no reader holds.
    pub fn new(items: Vec<GcObj>) -> (v: LispVec)
        ensures
            v.items == items,
            v.gc.bits == 0,
            v.readers == 0,
    {
        LispVec { gc: GcMark::new(), items, readers: 0 }
    }

    /// Number of items.
    pub fn len(&self) -> (n: usize)
        ensures
            n == self@.len(),
    {
        self.items.len()
    }

    /// The item at `idx`, if there is one.
    pub fn get(&self, idx: usize) -> (r: Option<GcObj>)
        ensures
            r == if idx < self@.len() {
                Some(self@[idx as int])
            } else {
                None
            },
    {
        if idx < self.items.len() {
            Some(self.items[idx])
        } else {
            None
        }
    }

    /// Registers a reader. Nothing happens when the count is at its limit.
    pub fn begin_read(&mut self)
        ensures
            final(self).items == old(self).items,
            final(self).gc == old(self).gc,
            final(self).readers == if old(self).readers < usize::MAX {
                (old(self).readers + 1) as usize
            } else {
                old(self).readers
            },
    {
        if self.readers < usize::MAX {
            self.readers = self.readers + 1;
        }
    }

    /// Releases a reader, if there is one.
    pub fn end_read(&mut self)
        ensures
            final(self).items == old(self).items,
            final(self).gc == old(self).gc,
            final(self).readers == if old(self).readers > 0 {
                (old(self).readers - 1) as usize
            } else {
                0
            },
    {
        if self.readers > 0 {
            self.readers = self.readers - 1;
        }
    }

    /// Whether a write at `idx` succeeds, and with which error it fails.
    pub open spec fn set_outcome(self, idx: usize) -> Option<crate::error::ErrorView> {
        if self.readers > 0 {
            Some(crate::error::ErrorView::Borrowed)
        } else if idx >= self@.len() {
            Some(crate::error::ErrorView::OutOfBounds { idx: idx as int, len: self@.len() as int })
        } else {
            None
        }
    }

    /// Whether `after` is this vector once a write of `v` at `idx` was
    /// tried and ended as `err` says: written in place on success,
    /// unchanged on failure.
    pub open spec fn after_set(
        self,
        idx: usize,
        v: GcObj,
        after: LispVec,
        err: Option<crate::error::ErrorView>,
    ) -> bool {
        &&& after.gc == self.gc
        &&& after.readers == self.readers
        &&& err == self.set_outcome(idx)
        &&& after@ == if err is None {
            self@.update(idx as int, v)
        } else {
            self@
        }
    }

    /// The number of readers after one more was registered (`begin`) or
    /// one was released.
    pub open spec fn readers_after(self, begin: bool) -> usize {
        if begin {
            if self.readers < usize::MAX {
                (self.readers + 1) as usize
            } else {
                self.readers
            }
        } else {
            if self.readers > 0 {
                (self.readers - 1) as usize
            } else {
                0
            }
        }
    }

    /// Whether `after` is this vector once a reader was registered
    /// (`begin`) or released.
    pub open spec fn after_read(self, begin: bool, after: LispVec) -> bool {
        &&& after.gc == self.gc
        &&& after@ == self@
        &&& after.readers == self.readers_after(begin)
    }

    /// Writes `v` at `idx`. Fails while a reader holds the vector, and on
    /// an index past the end; the vector is then unchanged.
    pub fn set(&mut self, idx: usize, v: GcObj) -> (r: Result<(), Error>)
        ensures
            final(self).gc == old(self).gc,
            final(self).readers == old(self).readers,
            match r {
                Ok(_) => old(self).set_outcome(idx) is None && final(self)@ == old(self)@.update(
                    idx as int,
                    v,
                ),
                Err(e) => old(self).set_outcome(idx) == Some(e@) && final(self).items == old(
                    self,
                ).items,
            },
    {
        if self.readers > 0 {
            Err(Error::Borrowed)
        } else if idx < self.items.len() {
            self.items[idx] = v;
            Ok(())
        } else {
            Err(Error::OutOfBounds { idx, len: self.items.len() })
        }
    }
}

impl Trace for LispVec {
    open spec fn refs(&self) -> Set<GcObj> {
        self.items.refs()
    }

    /// The items, first to last.
    open spec fn trail(&self) -> Seq<GcObj> {
        self.items@
    }

    open spec fn ordered(&self) -> bool {
        true
    }

    fn trace(&self, state: &mut GcState) {
        self.items.trace(state);
        proof {
            crate::gc::trace::lemma_objs_trail(self.items@, self.items@.len() as int);
            assert(self.items@.take(self.items@.len() as int) =~= self.items@);
        }
    }
}

} // verus!
