//! Tracing: enumerating the references that leave a value onto the work
//! stack of the collector.
use crate::object::tagged::{GcObj, RawObj};
use vstd::prelude::*;

verus! {

/// The state of a mark phase: the stack of references that are still to
/// be visited.
pub struct GcState {
    pub stack: Vec<RawObj>,
}

impl View for GcState {
    type V = Seq<GcObj>;

    /// The references on the stack, bottom first.
    open spec fn view(&self) -> Seq<GcObj> {
        Seq::new(self.stack@.len(), |i: int| self.stack@[i].obj())
    }
}

impl GcState {
    /// An empty work stack.
    pub fn new() -> (s: Self)
        ensures
            s@ == Seq::<GcObj>::empty(),
    {
        GcState { stack: Vec::new() }
    }

    /// Puts a reference on the stack.
    pub fn push(&mut self, obj: GcObj)
        ensures
            final(self)@ == old(self)@.push(obj),
    {
        self.stack.push(obj.into_raw());
    }

    /// The stack itself, for the collector to drain.
    pub fn stack(&mut self) -> (r: &mut Vec<RawObj>)
        ensures
            *r == old(self).stack,
            final(self).stack == *final(r),
    {
        &mut self.stack
    }

    /// Takes the topmost reference off the stack.
    pub fn pop(&mut self) -> (r: Option<GcObj>)
        ensures
            old(self)@.len() == 0 ==> r is None && final(self)@ == old(self)@,
            old(self)@.len() > 0 ==> r == Some(old(self)@.last()) && final(self)@ == old(
                self,
            )@.drop_last(),
    {
        match self.stack.pop() {
            Some(raw) => Some(GcObj::from_raw(raw)),
            None => None,
        }
    }
}

/// Whether `o` stands on the stack `s` at or above position `from`.
pub open spec fn pushed_from(s: Seq<GcObj>, from: int, o: GcObj) -> bool {
    exists|k: int| from <= k < s.len() && s[k] == o
}

/// What tracing does to the work stack, as far as the collector needs
/// it: what stood on it stays, and the references put on top of it are
/// exactly `refs`. How often and in which order, [`trailed`] says.
pub open spec fn traced(before: Seq<GcObj>, after: Seq<GcObj>, refs: Set<GcObj>) -> bool {
    &&& before.len() <= after.len()
    &&& forall|k: int| 0 <= k < before.len() ==> after[k] == before[k]
    &&& forall|o: GcObj|
        #![trigger refs.contains(o)]
        #![trigger pushed_from(after, before.len() as int, o)]
        refs.contains(o) <==> pushed_from(after, before.len() as int, o)
}

/// Putting one reference on the stack traces exactly that reference.
pub proof fn lemma_traced_push(s: Seq<GcObj>, o: GcObj)
    ensures
        traced(s, s.push(o), set![o]),
{
    let after = s.push(o);
    assert(after[s.len() as int] == o);
    assert(pushed_from(after, s.len() as int, o));
}

/// Tracing one thing after another traces both.
pub proof fn lemma_traced_then(
    a: Seq<GcObj>,
    b: Seq<GcObj>,
    c: Seq<GcObj>,
    first: Set<GcObj>,
    second: Set<GcObj>,
)
    requires
        traced(a, b, first),
        traced(b, c, second),
    ensures
        traced(a, c, first.union(second)),
{
    let both = first.union(second);
    assert forall|o: GcObj| both.contains(o) implies pushed_from(c, a.len() as int, o) by {
        if first.contains(o) {
            assert(pushed_from(b, a.len() as int, o));
            let k = choose|k: int| a.len() <= k < b.len() && b[k] == o;
            assert(c[k] == o);
        } else {
            assert(second.contains(o));
            assert(pushed_from(c, b.len() as int, o));
            let k = choose|k: int| b.len() <= k < c.len() && c[k] == o;
            assert(c[k] == o);
        }
    }
    assert forall|o: GcObj| pushed_from(c, a.len() as int, o) implies both.contains(o) by {
        let k = choose|k: int| a.len() <= k < c.len() && c[k] == o;
        if k < b.len() {
            assert(b[k] == o);
            assert(pushed_from(b, a.len() as int, o));
            assert(first.contains(o));
        } else {
            assert(pushed_from(c, b.len() as int, o));
            assert(second.contains(o));
        }
    }
}

/// The references that were put on a stack since it was `before`.
pub open spec fn tail(before: Seq<GcObj>, after: Seq<GcObj>) -> Seq<GcObj> {
    after.subrange(before.len() as int, after.len() as int)
}

/// What tracing does to the work stack, reference by reference: what
/// stood on it stays, and each reference of `trail` is put on top of it as
/// often as it stands in `trail`, and no other; in the order of `trail`
/// if the value that is traced is `ordered`.
pub open spec fn trailed(
    before: Seq<GcObj>,
    after: Seq<GcObj>,
    trail: Seq<GcObj>,
    ordered: bool,
) -> bool {
    &&& before.len() <= after.len()
    &&& after.subrange(0, before.len() as int) == before
    &&& tail(before, after).to_multiset() == trail.to_multiset()
    &&& ordered ==> after == before + trail
}

/// Tracing nothing leaves the stack as it is.
pub proof fn lemma_trailed_none(s: Seq<GcObj>)
    ensures
        trailed(s, s, Seq::empty(), true),
{
    assert(s.subrange(0, s.len() as int) =~= s);
    assert(tail(s, s) =~= Seq::<GcObj>::empty());
    assert(s + Seq::<GcObj>::empty() =~= s);
}

/// Putting one reference on the stack puts it there once.
pub proof fn lemma_trailed_push(s: Seq<GcObj>, o: GcObj)
    ensures
        trailed(s, s.push(o), seq![o], true),
{
    let after = s.push(o);
    assert(after.subrange(0, s.len() as int) =~= s);
    assert(tail(s, after) =~= seq![o]);
    assert(s + seq![o] =~= after);
}

/// Tracing one thing after another puts the references of both on the
/// stack, those of the first below those of the second.
pub proof fn lemma_trailed_then(
    a: Seq<GcObj>,
    b: Seq<GcObj>,
    c: Seq<GcObj>,
    first: Seq<GcObj>,
    first_ordered: bool,
    second: Seq<GcObj>,
    second_ordered: bool,
)
    requires
        trailed(a, b, first, first_ordered),
        trailed(b, c, second, second_ordered),
    ensures
        trailed(a, c, first + second, first_ordered && second_ordered),
{
    assert(c.subrange(0, a.len() as int) =~= b.subrange(0, a.len() as int)) by {
        assert(c.subrange(0, b.len() as int) == b);
        assert forall|k: int| 0 <= k < a.len() implies c[k] == b[k] by {
            assert(c.subrange(0, b.len() as int)[k] == c[k]);
        }
    }
    assert(tail(a, c) =~= tail(a, b) + tail(b, c)) by {
        assert forall|k: int| 0 <= k < b.len() - a.len() implies tail(a, c)[k] == tail(a, b)[k] by {
            assert(c.subrange(0, b.len() as int)[a.len() + k] == c[a.len() + k]);
        }
    }
    vstd::seq_lib::lemma_multiset_commutative(tail(a, b), tail(b, c));
    vstd::seq_lib::lemma_multiset_commutative(first, second);
    if first_ordered && second_ordered {
        assert(c =~= a + (first + second));
    }
}

/// The capability to enumerate the references that leave a value, by
/// putting them on the collector's work stack.
pub trait Trace {
    /// The references that leave the value.
    spec fn refs(&self) -> Set<GcObj>;

    /// The references that tracing puts on the stack, each as often as it
    /// is put there; in the order in which it is put there if the value is
    /// [`ordered`](Trace::ordered).
    spec fn trail(&self) -> Seq<GcObj>;

    /// Whether tracing puts the references on the stack in the order of
    /// [`trail`](Trace::trail). A value that is walked in no fixed order,
    /// as a hash map is, is not ordered.
    spec fn ordered(&self) -> bool;

    /// Puts every reference that leaves the value on the stack: each part
    /// of the value is traced once.
    fn trace(&self, state: &mut GcState)
        ensures
            traced(old(state)@, final(state)@, self.refs()),
            trailed(old(state)@, final(state)@, self.trail(), self.ordered()),
    ;
}

/// The references that leave the first `n` items of a sequence.
pub open spec fn seq_refs<T: Trace>(s: Seq<T>, n: int) -> Set<GcObj> {
    Set::new(|o: GcObj| exists|i: int| 0 <= i < n && i < s.len() && #[trigger] s[i].refs().contains(o))
}

/// The references that leave the first `n + 1` items are those of the
/// first `n` together with those of item `n`.
pub proof fn lemma_seq_refs_step<T: Trace>(s: Seq<T>, n: int)
    requires
        0 <= n < s.len(),
    ensures
        seq_refs(s, n + 1) == seq_refs(s, n).union(s[n].refs()),
        seq_refs(s, 0) == Set::<GcObj>::empty(),
{
    let l = seq_refs(s, n + 1);
    let r = seq_refs(s, n).union(s[n].refs());
    assert forall|o: GcObj| l.contains(o) <==> r.contains(o) by {
        if l.contains(o) {
            let i = choose|i: int| 0 <= i < n + 1 && i < s.len() && #[trigger] s[i].refs().contains(o);
            if i < n {
                assert(seq_refs(s, n).contains(o));
            }
        }
        if r.contains(o) {
            if seq_refs(s, n).contains(o) {
                let i = choose|i: int| 0 <= i < n && i < s.len() && #[trigger] s[i].refs().contains(o);
                assert(s[i].refs().contains(o));
            } else {
                assert(s[n].refs().contains(o));
            }
        }
    }
    assert(l =~= r);
    assert(seq_refs(s, 0) =~= Set::<GcObj>::empty());
}

/// The references that leave the first `n` items depend on those items
/// only.
pub proof fn lemma_seq_refs_prefix<T: Trace>(a: Seq<T>, b: Seq<T>, n: int)
    requires
        n <= a.len(),
        n <= b.len(),
        forall|i: int| 0 <= i < n ==> a[i] == b[i],
    ensures
        seq_refs(a, n) == seq_refs(b, n),
{
    assert forall|o: GcObj| seq_refs(a, n).contains(o) <==> seq_refs(b, n).contains(o) by {
        if seq_refs(a, n).contains(o) {
            let i = choose|i: int| 0 <= i < n && i < a.len() && #[trigger] a[i].refs().contains(o);
            assert(b[i].refs().contains(o));
        }
        if seq_refs(b, n).contains(o) {
            let i = choose|i: int| 0 <= i < n && i < b.len() && #[trigger] b[i].refs().contains(o);
            assert(a[i].refs().contains(o));
        }
    }
    assert(seq_refs(a, n) =~= seq_refs(b, n));
}

/// A sequence that grows by an item refers to what it referred to and to
/// what the item refers to.
pub proof fn lemma_seq_refs_push<T: Trace>(s: Seq<T>, v: T)
    ensures
        seq_refs(s.push(v), s.len() as int + 1) == seq_refs(s, s.len() as int).union(v.refs()),
{
    let t = s.push(v);
    lemma_seq_refs_step(t, s.len() as int);
    lemma_seq_refs_prefix(t, s, s.len() as int);
}

/// A sequence that loses its last item refers to no more than before.
pub proof fn lemma_seq_refs_drop_last<T: Trace>(s: Seq<T>)
    requires
        s.len() > 0,
    ensures
        seq_refs(s.drop_last(), s.len() - 1).subset_of(seq_refs(s, s.len() as int)),
{
    let t = s.drop_last();
    assert forall|o: GcObj| seq_refs(t, s.len() - 1).contains(o) implies seq_refs(
        s,
        s.len() as int,
    ).contains(o) by {
        let i = choose|i: int| 0 <= i < s.len() - 1 && i < t.len() && #[trigger] t[i].refs().contains(o);
        assert(s[i].refs().contains(o));
    }
}

/// A sequence in which an item is replaced refers to no more than it did
/// and the new item does.
pub proof fn lemma_seq_refs_update<T: Trace>(s: Seq<T>, i: int, v: T)
    requires
        0 <= i < s.len(),
    ensures
        seq_refs(s.update(i, v), s.len() as int).subset_of(
            seq_refs(s, s.len() as int).union(v.refs()),
        ),
{
    let t = s.update(i, v);
    assert forall|o: GcObj| seq_refs(t, s.len() as int).contains(o) implies seq_refs(
        s,
        s.len() as int,
    ).union(v.refs()).contains(o) by {
        let k = choose|k: int| 0 <= k < s.len() && k < t.len() && #[trigger] t[k].refs().contains(o);
        if k != i {
            assert(s[k].refs().contains(o));
        }
    }
}

/// A sequence of tagged values refers to exactly its items.
pub proof fn lemma_seq_refs_objs(s: Seq<GcObj>, o: GcObj)
    ensures
        seq_refs(s, s.len() as int).contains(o) <==> s.contains(o),
{
    if seq_refs(s, s.len() as int).contains(o) {
        let i = choose|i: int| 0 <= i < s.len() && i < s.len() && #[trigger] s[i].refs().contains(o);
        assert(s[i] == o);
    }
    if s.contains(o) {
        let i = choose|i: int| 0 <= i < s.len() && s[i] == o;
        assert(s[i].refs().contains(o));
    }
}

/// The references that tracing the first `n` items of a sequence puts on
/// the stack, item by item.
pub open spec fn seq_trail<T: Trace>(s: Seq<T>, n: int) -> Seq<GcObj>
    decreases n,
{
    if n <= 0 || n > s.len() {
        Seq::empty()
    } else {
        seq_trail(s, n - 1) + s[n - 1].trail()
    }
}

/// Whether each of the first `n` items of a sequence is ordered.
pub open spec fn seq_ordered<T: Trace>(s: Seq<T>, n: int) -> bool {
    forall|i: int| 0 <= i < n && i < s.len() ==> (#[trigger] s[i]).ordered()
}

/// Whether the stacks `marks` are those that tracing the items of a
/// sequence one after the other goes through: the stack `before`, then
/// the stack after each item was traced, the last being `after`.
pub open spec fn turns<T: Trace>(
    s: Seq<T>,
    before: Seq<GcObj>,
    after: Seq<GcObj>,
    marks: Seq<Seq<GcObj>>,
) -> bool {
    &&& marks.len() == s.len() + 1
    &&& marks[0] == before
    &&& marks[s.len() as int] == after
    &&& forall|i: int|
        #![trigger marks[i]]
        0 <= i < s.len() ==> traced(marks[i], marks[i + 1], s[i].refs()) && trailed(
            marks[i],
            marks[i + 1],
            s[i].trail(),
            s[i].ordered(),
        )
}

/// Whether the stack `after` is what tracing the items of a sequence
/// makes of the stack `before`: each item traced once, in the order of
/// the sequence.
pub open spec fn traced_in_turn<T: Trace>(s: Seq<T>, before: Seq<GcObj>, after: Seq<GcObj>) -> bool {
    exists|marks: Seq<Seq<GcObj>>| #[trigger] turns(s, before, after, marks)
}

/// Tracing item `i` after the items before it has traced the first
/// `i + 1` items.
pub proof fn lemma_trace_next<T: Trace>(
    s: Seq<T>,
    i: int,
    a: Seq<GcObj>,
    b: Seq<GcObj>,
    c: Seq<GcObj>,
)
    requires
        0 <= i < s.len(),
        traced(a, b, seq_refs(s, i)),
        trailed(a, b, seq_trail(s, i), seq_ordered(s, i)),
        traced(b, c, s[i].refs()),
        trailed(b, c, s[i].trail(), s[i].ordered()),
    ensures
        traced(a, c, seq_refs(s, i + 1)),
        trailed(a, c, seq_trail(s, i + 1), seq_ordered(s, i + 1)),
{
    lemma_seq_refs_step(s, i);
    lemma_traced_then(a, b, c, seq_refs(s, i), s[i].refs());
    lemma_trailed_then(a, b, c, seq_trail(s, i), seq_ordered(s, i), s[i].trail(), s[i].ordered());
    assert(seq_ordered(s, i + 1) == (seq_ordered(s, i) && s[i].ordered())) by {
        if seq_ordered(s, i) && s[i].ordered() {
            assert forall|k: int| 0 <= k < i + 1 && k < s.len() implies (#[trigger] s[k]).ordered() by {
                if k < i {
                    assert(s[k].ordered());
                }
            }
        }
        if seq_ordered(s, i + 1) {
            assert(s[i].ordered());
        }
    }
}

/// Before the first item is traced, nothing is.
pub proof fn lemma_trace_first<T: Trace>(s: Seq<T>, a: Seq<GcObj>)
    ensures
        traced(a, a, seq_refs(s, 0)),
        trailed(a, a, seq_trail(s, 0), seq_ordered(s, 0)),
{
    assert(seq_refs(s, 0) =~= Set::<GcObj>::empty());
    lemma_trailed_none(a);
}

/// What tracing the first `n` items puts on the stack depends on those
/// items only.
pub proof fn lemma_seq_trail_prefix<T: Trace>(a: Seq<T>, b: Seq<T>, n: int)
    requires
        n <= a.len(),
        n <= b.len(),
        forall|i: int| 0 <= i < n ==> a[i] == b[i],
    ensures
        seq_trail(a, n) == seq_trail(b, n),
        seq_ordered(a, n) == seq_ordered(b, n),
    decreases n,
{
    if n > 0 {
        lemma_seq_trail_prefix(a, b, n - 1);
    }
    if seq_ordered(a, n) {
        assert forall|i: int| 0 <= i < n && i < b.len() implies (#[trigger] b[i]).ordered() by {
            assert(a[i].ordered());
        }
    }
    if seq_ordered(b, n) {
        assert forall|i: int| 0 <= i < n && i < a.len() implies (#[trigger] a[i]).ordered() by {
            assert(b[i].ordered());
        }
    }
}

/// Tracing a sequence of tagged values puts them on the stack as they
/// stand in the sequence.
pub proof fn lemma_objs_trail(s: Seq<GcObj>, n: int)
    requires
        0 <= n <= s.len(),
    ensures
        seq_trail(s, n) == s.take(n),
        seq_ordered(s, n),
    decreases n,
{
    if n > 0 {
        lemma_objs_trail(s, n - 1);
        assert(s.take(n - 1) + seq![s[n - 1]] =~= s.take(n));
    } else {
        assert(s.take(0) =~= Seq::<GcObj>::empty());
    }
}

impl Trace for usize {
    open spec fn refs(&self) -> Set<GcObj> {
        Set::empty()
    }

    open spec fn trail(&self) -> Seq<GcObj> {
        Seq::empty()
    }

    open spec fn ordered(&self) -> bool {
        true
    }

    fn trace(&self, state: &mut GcState) {
        proof {
            lemma_trailed_none(state@);
        }
    }
}

impl Trace for u64 {
    open spec fn refs(&self) -> Set<GcObj> {
        Set::empty()
    }

    open spec fn trail(&self) -> Seq<GcObj> {
        Seq::empty()
    }

    open spec fn ordered(&self) -> bool {
        true
    }

    fn trace(&self, state: &mut GcState) {
        proof {
            lemma_trailed_none(state@);
            assert(self.refs() == Set::<GcObj>::empty());
            assert(self.trail() == Seq::<GcObj>::empty() && self.ordered());
        }
    }
}

impl Trace for i64 {
    open spec fn refs(&self) -> Set<GcObj> {
        Set::empty()
    }

    open spec fn trail(&self) -> Seq<GcObj> {
        Seq::empty()
    }

    open spec fn ordered(&self) -> bool {
        true
    }

    fn trace(&self, state: &mut GcState) {
        proof {
            lemma_trailed_none(state@);
        }
    }
}

impl Trace for GcObj {
    open spec fn refs(&self) -> Set<GcObj> {
        set![*self]
    }

    open spec fn trail(&self) -> Seq<GcObj> {
        seq![*self]
    }

    open spec fn ordered(&self) -> bool {
        true
    }

    fn trace(&self, state: &mut GcState) {
        state.push(*self);
        proof {
            lemma_traced_push(old(state)@, *self);
            lemma_trailed_push(old(state)@, *self);
        }
    }
}

impl<T: Trace> Trace for &T {
    open spec fn refs(&self) -> Set<GcObj> {
        (**self).refs()
    }

    open spec fn trail(&self) -> Seq<GcObj> {
        (**self).trail()
    }

    open spec fn ordered(&self) -> bool {
        (**self).ordered()
    }

    fn trace(&self, state: &mut GcState) {
        (*self).trace(state);
    }
}

impl<T: Trace, U: Trace> Trace for (T, U) {
    open spec fn refs(&self) -> Set<GcObj> {
        self.0.refs().union(self.1.refs())
    }

    open spec fn trail(&self) -> Seq<GcObj> {
        self.0.trail() + self.1.trail()
    }

    open spec fn ordered(&self) -> bool {
        self.0.ordered() && self.1.ordered()
    }

    fn trace(&self, state: &mut GcState)
        ensures
            exists|mid: Seq<GcObj>|
                {
                    &&& #[trigger] traced(old(state)@, mid, self.0.refs())
                    &&& trailed(old(state)@, mid, self.0.trail(), self.0.ordered())
                    &&& traced(mid, final(state)@, self.1.refs())
                    &&& trailed(mid, final(state)@, self.1.trail(), self.1.ordered())
                },
    {
        self.0.trace(state);
        let ghost mid = state@;
        self.1.trace(state);
        proof {
            lemma_traced_then(old(state)@, mid, state@, self.0.refs(), self.1.refs());
            lemma_trailed_then(
                old(state)@,
                mid,
                state@,
                self.0.trail(),
                self.0.ordered(),
                self.1.trail(),
                self.1.ordered(),
            );
        }
    }
}

impl<T: Trace> Trace for [T] {
    open spec fn refs(&self) -> Set<GcObj> {
        seq_refs(self@, self@.len() as int)
    }

    open spec fn trail(&self) -> Seq<GcObj> {
        seq_trail(self@, self@.len() as int)
    }

    open spec fn ordered(&self) -> bool {
        seq_ordered(self@, self@.len() as int)
    }

    fn trace(&self, state: &mut GcState)
        ensures
            traced_in_turn(self@, old(state)@, final(state)@),
    {
        let mut i: usize = 0;
        let ghost mut marks = seq![state@];
        proof {
            lemma_trace_first(self@, state@);
        }
        while i < self.len()
            invariant
                i <= self.len(),
                traced(old(state)@, state@, seq_refs(self@, i as int)),
                trailed(
                    old(state)@,
                    state@,
                    seq_trail(self@, i as int),
                    seq_ordered(self@, i as int),
                ),
                marks.len() == i + 1,
                marks[0] == old(state)@,
                marks[i as int] == state@,
                forall|k: int|
                    #![trigger marks[k]]
                    0 <= k < i ==> traced(marks[k], marks[k + 1], self@[k].refs()) && trailed(
                        marks[k],
                        marks[k + 1],
                        self@[k].trail(),
                        self@[k].ordered(),
                    ),
            decreases self.len() - i,
        {
            let ghost mid = state@;
            self[i].trace(state);
            proof {
                lemma_trace_next(self@, i as int, old(state)@, mid, state@);
                marks = marks.push(state@);
            }
            i += 1;
        }
        proof {
            assert(turns(self@, old(state)@, state@, marks));
        }
        proof {
            assert(self.refs() == seq_refs(self@, self@.len() as int));
            assert(self.trail() == seq_trail(self@, self@.len() as int));
            assert(self.ordered() == seq_ordered(self@, self@.len() as int));
        }
    }
}

impl<T: Trace> Trace for Vec<T> {
    open spec fn refs(&self) -> Set<GcObj> {
        seq_refs(self@, self@.len() as int)
    }

    open spec fn trail(&self) -> Seq<GcObj> {
        seq_trail(self@, self@.len() as int)
    }

    open spec fn ordered(&self) -> bool {
        seq_ordered(self@, self@.len() as int)
    }

    fn trace(&self, state: &mut GcState)
        ensures
            traced_in_turn(self@, old(state)@, final(state)@),
    {
        self.as_slice().trace(state);
    }
}

impl<T: Trace, const N: usize> Trace for [T; N] {
    open spec fn refs(&self) -> Set<GcObj> {
        seq_refs(self@, self@.len() as int)
    }

    open spec fn trail(&self) -> Seq<GcObj> {
        seq_trail(self@, self@.len() as int)
    }

    open spec fn ordered(&self) -> bool {
        seq_ordered(self@, self@.len() as int)
    }

    fn trace(&self, state: &mut GcState)
        ensures
            traced_in_turn(self@, old(state)@, final(state)@),
    {
        broadcast use vstd::array::group_array_axioms;

        self.as_slice().trace(state);
    }
}

impl<T: Trace> Trace for std::collections::VecDeque<T> {
    open spec fn refs(&self) -> Set<GcObj> {
        seq_refs(self@, self@.len() as int)
    }

    open spec fn trail(&self) -> Seq<GcObj> {
        seq_trail(self@, self@.len() as int)
    }

    open spec fn ordered(&self) -> bool {
        seq_ordered(self@, self@.len() as int)
    }

    fn trace(&self, state: &mut GcState)
        ensures
            traced_in_turn(self@, old(state)@, final(state)@),
    {
        let mut i: usize = 0;
        let ghost mut marks = seq![state@];
        proof {
            lemma_trace_first(self@, state@);
        }
        while i < self.len()
            invariant
                i <= self.len(),
                traced(old(state)@, state@, seq_refs(self@, i as int)),
                trailed(
                    old(state)@,
                    state@,
                    seq_trail(self@, i as int),
                    seq_ordered(self@, i as int),
                ),
                marks.len() == i + 1,
                marks[0] == old(state)@,
                marks[i as int] == state@,
                forall|k: int|
                    #![trigger marks[k]]
                    0 <= k < i ==> traced(marks[k], marks[k + 1], self@[k].refs()) && trailed(
                        marks[k],
                        marks[k + 1],
                        self@[k].trail(),
                        self@[k].ordered(),
                    ),
            decreases self.len() - i,
        {
            let ghost mid = state@;
            self[i].trace(state);
            proof {
                lemma_trace_next(self@, i as int, old(state)@, mid, state@);
                marks = marks.push(state@);
            }
            i += 1;
        }
        proof {
            assert(turns(self@, old(state)@, state@, marks));
        }
    }
}

impl<T: Trace> Trace for Option<T> {
    open spec fn refs(&self) -> Set<GcObj> {
        match self {
            Some(x) => x.refs(),
            None => Set::empty(),
        }
    }

    open spec fn trail(&self) -> Seq<GcObj> {
        match self {
            Some(x) => x.trail(),
            None => Seq::empty(),
        }
    }

    open spec fn ordered(&self) -> bool {
        match self {
            Some(x) => x.ordered(),
            None => true,
        }
    }

    fn trace(&self, state: &mut GcState) {
        match self.as_ref() {
            Some(x) => {
                x.trace(state);
            },
            None => {
                proof {
                    lemma_trailed_none(state@);
                }
            },
        }
    }
}

} // verus!
