//! What values are as structures: the object behind a reference,
//! structural equality, and what a collection leaves untouched.
use crate::gc::context::{collected, heap_closed, inserted, obj_valid, Context};
use crate::gc::heap::{live_at, Heap};
use crate::gc::reach::{edge, lemma_reach_live, lemma_reach_seed, lemma_reach_step, reachable};
use crate::gc::trace::Trace;
use crate::object::boxed::{lemma_with_mark, HeapObject};
use crate::object::tagged::{GcObj, Object};
use vstd::prelude::*;

verus! {

/// The object that a value refers to: the one in the slot that the value
/// names, if the slot holds an object of the variant that the tag names.
pub open spec fn deref(h: Heap, o: GcObj) -> Option<HeapObject> {
    match o.target() {
        Some(i) => if live_at(h, i) && h[i].unwrap().kind() == o.tag_spec() {
            h[i]
        } else {
            None
        },
        None => None,
    }
}

/// A valid value refers to an object exactly when it is boxed.
pub proof fn lemma_deref_valid(h: Heap, nsyms: nat, o: GcObj)
    requires
        obj_valid(h, nsyms, o),
    ensures
        deref(h, o) is Some <==> o.target() is Some,
        o.target() matches Some(i) ==> live_at(h, i) && deref(h, o) == h[i],
{
}

/// Structural equality, to a depth of `fuel` references: two values are
/// equal when they are the same word, or refer to cons cells with equal
/// parts, to vectors with equal items, to strings with the same text, or
/// to floats with the same bits. Deeper than `fuel` nothing is equal
/// that is not the same.
pub open spec fn equal_spec(h: Heap, a: GcObj, b: GcObj, fuel: nat) -> bool
    decreases fuel,
{
    a == b || match (deref(h, a), deref(h, b)) {
        (Some(HeapObject::Cons(x)), Some(HeapObject::Cons(y))) => fuel > 0 && equal_spec(
            h,
            x.car,
            y.car,
            (fuel - 1) as nat,
        ) && equal_spec(h, x.cdr, y.cdr, (fuel - 1) as nat),
        (Some(HeapObject::Vec(x)), Some(HeapObject::Vec(y))) => fuel > 0 && x@.len() == y@.len()
            && forall|i: int|
            #![trigger x@[i]]
            0 <= i < x@.len() ==> equal_spec(h, x@[i], y@[i], (fuel - 1) as nat),
        (Some(HeapObject::String(x)), Some(HeapObject::String(y))) => x.text@ == y.text@,
        (Some(HeapObject::Float(x)), Some(HeapObject::Float(y))) => x.bits == y.bits,
        _ => false,
    }
}

/// What is the same is equal.
pub proof fn lemma_eq_implies_equal(h: Heap, a: GcObj, b: GcObj, fuel: nat)
    requires
        a == b,
    ensures
        equal_spec(h, a, b, fuel),
{
}

/// Every value is equal to itself.
pub proof fn lemma_equal_reflexive(h: Heap, a: GcObj, fuel: nat)
    ensures
        equal_spec(h, a, a, fuel),
{
}

/// Equality does not depend on the order of the two values.
pub proof fn lemma_equal_symmetric(h: Heap, a: GcObj, b: GcObj, fuel: nat)
    ensures
        equal_spec(h, a, b, fuel) == equal_spec(h, b, a, fuel),
    decreases fuel,
{
    if a != b && fuel > 0 {
        match (deref(h, a), deref(h, b)) {
            (Some(HeapObject::Cons(x)), Some(HeapObject::Cons(y))) => {
                lemma_equal_symmetric(h, x.car, y.car, (fuel - 1) as nat);
                lemma_equal_symmetric(h, x.cdr, y.cdr, (fuel - 1) as nat);
            },
            (Some(HeapObject::Vec(x)), Some(HeapObject::Vec(y))) => {
                if x@.len() == y@.len() {
                    assert forall|i: int| 0 <= i < x@.len() implies equal_spec(
                        h,
                        x@[i],
                        y@[i],
                        (fuel - 1) as nat,
                    ) == equal_spec(h, y@[i], x@[i], (fuel - 1) as nat) by {
                        lemma_equal_symmetric(h, x@[i], y@[i], (fuel - 1) as nat);
                    }
                    if equal_spec(h, a, b, fuel) {
                        assert forall|i: int| #![trigger y@[i]] 0 <= i < y@.len() implies equal_spec(
                            h,
                            y@[i],
                            x@[i],
                            (fuel - 1) as nat,
                        ) by {
                            assert(equal_spec(h, x@[i], y@[i], (fuel - 1) as nat));
                        }
                    }
                    if equal_spec(h, b, a, fuel) {
                        assert forall|i: int| #![trigger x@[i]] 0 <= i < x@.len() implies equal_spec(
                            h,
                            x@[i],
                            y@[i],
                            (fuel - 1) as nat,
                        ) by {
                            assert(equal_spec(h, y@[i], x@[i], (fuel - 1) as nat));
                        }
                    }
                }
            },
            _ => {},
        }
    }
}

/// Two values that are equal to a third are equal to each other.
pub proof fn lemma_equal_transitive(h: Heap, a: GcObj, b: GcObj, c: GcObj, fuel: nat)
    requires
        equal_spec(h, a, b, fuel),
        equal_spec(h, b, c, fuel),
    ensures
        equal_spec(h, a, c, fuel),
    decreases fuel,
{
    if a != b && b != c && a != c {
        match (deref(h, a), deref(h, b), deref(h, c)) {
            (
                Some(HeapObject::Cons(x)),
                Some(HeapObject::Cons(y)),
                Some(HeapObject::Cons(z)),
            ) => {
                lemma_equal_transitive(h, x.car, y.car, z.car, (fuel - 1) as nat);
                lemma_equal_transitive(h, x.cdr, y.cdr, z.cdr, (fuel - 1) as nat);
            },
            (Some(HeapObject::Vec(x)), Some(HeapObject::Vec(y)), Some(HeapObject::Vec(z))) => {
                assert forall|i: int| #![trigger x@[i]] 0 <= i < x@.len() implies equal_spec(
                    h,
                    x@[i],
                    z@[i],
                    (fuel - 1) as nat,
                ) by {
                    assert(equal_spec(h, x@[i], y@[i], (fuel - 1) as nat));
                    let yi = y@[i];
                    assert(equal_spec(h, y@[i], z@[i], (fuel - 1) as nat));
                    lemma_equal_transitive(h, x@[i], y@[i], z@[i], (fuel - 1) as nat);
                }
            },
            _ => {},
        }
    }
}

/// Whether the structure of a value is no deeper than `fuel` references.
pub open spec fn within_depth(h: Heap, o: GcObj, fuel: nat) -> bool
    decreases fuel,
{
    match deref(h, o) {
        None => true,
        Some(obj) => fuel > 0 && forall|c: GcObj| #[trigger]
            obj.refs().contains(c) ==> within_depth(h, c, (fuel - 1) as nat),
    }
}

/// A structure that is no deeper than `fuel` references is no deeper
/// than any more.
pub proof fn lemma_depth_more(h: Heap, o: GcObj, fuel: nat, more: nat)
    requires
        within_depth(h, o, fuel),
        fuel <= more,
    ensures
        within_depth(h, o, more),
    decreases fuel,
{
    match deref(h, o) {
        None => {},
        Some(obj) => {
            assert forall|c: GcObj| #[trigger] obj.refs().contains(c) implies within_depth(
                h,
                c,
                (more - 1) as nat,
            ) by {
                lemma_depth_more(h, c, (fuel - 1) as nat, (more - 1) as nat);
            }
        },
    }
}

/// A part of a structure that is deeper than `n` references which is
/// itself deeper than `n - 1`.
pub open spec fn deep_part(h: Heap, o: GcObj, n: nat) -> GcObj {
    choose|c: GcObj| deref(h, o).unwrap().refs().contains(c) && !within_depth(h, c, (n - 1) as nat)
}

/// Where `k` steps lead, each to a deepest part, from a structure that is
/// deeper than `n` references.
pub open spec fn deep_chain(h: Heap, o: GcObj, n: nat, k: nat) -> GcObj
    decreases k,
{
    if k == 0 {
        o
    } else {
        deep_chain(h, deep_part(h, o, n), (n - 1) as nat, (k - 1) as nat)
    }
}

/// Every step of the chain leads to an object that is too deep for the
/// fuel that is left.
proof fn lemma_deep_chain(h: Heap, o: GcObj, n: nat, k: nat)
    requires
        !within_depth(h, o, n),
        k <= n,
    ensures
        !within_depth(h, deep_chain(h, o, n, k), (n - k) as nat),
        deref(h, deep_chain(h, o, n, k)) is Some,
    decreases k,
{
    if k > 0 {
        let obj = deref(h, o).unwrap();
        let c = deep_part(h, o, n);
        assert(obj.refs().contains(c) && !within_depth(h, c, (n - 1) as nat));
        lemma_deep_chain(h, c, (n - 1) as nat, (k - 1) as nat);
    }
}

/// A structure that is no deeper than `m` references leaves, `k` steps
/// down the chain, one that is no deeper than `m - k`.
proof fn lemma_deep_chain_descends(h: Heap, o: GcObj, n: nat, k: nat, m: nat)
    requires
        !within_depth(h, o, n),
        k <= n,
        within_depth(h, o, m),
    ensures
        k <= m,
        within_depth(h, deep_chain(h, o, n, k), (m - k) as nat),
    decreases k,
{
    if k > 0 {
        let obj = deref(h, o).unwrap();
        let c = deep_part(h, o, n);
        assert(obj.refs().contains(c) && !within_depth(h, c, (n - 1) as nat));
        assert(within_depth(h, c, (m - 1) as nat));
        lemma_deep_chain_descends(h, c, (n - 1) as nat, (k - 1) as nat, (m - 1) as nat);
    }
}

/// The chain from step `p` on is the chain of what step `p` leads to.
proof fn lemma_deep_chain_split(h: Heap, o: GcObj, n: nat, p: nat, k: nat)
    requires
        p + k <= n,
    ensures
        deep_chain(h, o, n, p + k) == deep_chain(h, deep_chain(h, o, n, p), (n - p) as nat, k),
    decreases p,
{
    if p > 0 {
        lemma_deep_chain_split(h, deep_part(h, o, n), (n - 1) as nat, (p - 1) as nat, k);
    }
}

/// A structure that runs in a circle is deeper than any number.
proof fn lemma_circle_is_deep(h: Heap, x: GcObj, n: nat, d: nat, m: nat)
    requires
        !within_depth(h, x, n),
        1 <= d <= n,
        deep_chain(h, x, n, d) == x,
    ensures
        !within_depth(h, x, m),
    decreases m,
{
    if within_depth(h, x, m) {
        lemma_deep_chain_descends(h, x, n, d, m);
        lemma_circle_is_deep(h, x, n, d, (m - d) as nat);
    }
}

/// A structure of finite depth is no deeper than the heap has slots:
/// down a deeper one, some object would come twice.
pub proof fn lemma_depth_fits(h: Heap, o: GcObj, n: nat)
    requires
        within_depth(h, o, n),
    ensures
        within_depth(h, o, h.len()),
{
    let len = h.len();
    if !within_depth(h, o, len) {
        let slots = Seq::new(len + 1, |k: int| deep_chain(h, o, len, k as nat).target().unwrap());
        assert forall|k: int| 0 <= k < slots.len() implies 0 <= #[trigger] slots[k] < len by {
            lemma_deep_chain(h, o, len, k as nat);
        }
        if slots.no_duplicates() {
            slots.unique_seq_to_set();
            vstd::set_lib::lemma_int_range(0, len as int);
            assert(slots.to_set().subset_of(vstd::set_lib::set_int_range(0, len as int))) by {
                assert forall|i: int| slots.to_set().contains(i) implies vstd::set_lib::set_int_range(
                    0,
                    len as int,
                ).contains(i) by {
                    let k = choose|k: int| 0 <= k < slots.len() && slots[k] == i;
                    assert(0 <= slots[k] < len);
                }
            }
            vstd::set_lib::lemma_len_subset(
                slots.to_set(),
                vstd::set_lib::set_int_range(0, len as int),
            );
        } else {
            let (p, q) = choose|p: int, q: int|
                0 <= p < slots.len() && 0 <= q < slots.len() && p != q && slots[p] == slots[q];
            let (lo, hi) = if p < q {
                (p as nat, q as nat)
            } else {
                (q as nat, p as nat)
            };
            let x = deep_chain(h, o, len, lo);
            let y = deep_chain(h, o, len, hi);
            lemma_deep_chain(h, o, len, lo);
            lemma_deep_chain(h, o, len, hi);
            assert(slots[lo as int] == slots[hi as int]);
            assert(x.target() == y.target());
            assert(x@ == y@);
            crate::object::tagged::lemma_view_injective(x, y);
            let d = (hi - lo) as nat;
            lemma_deep_chain_split(h, o, len, lo, d);
            lemma_deep_chain_descends(h, o, len, lo, n);
            lemma_circle_is_deep(h, x, (len - lo) as nat, d, (n - lo) as nat);
        }
    }
}

/// On a structure that is no deeper than `fuel` references, equality
/// needs no more fuel than that: with more, it decides the same.
pub proof fn lemma_equal_fuel(h: Heap, a: GcObj, b: GcObj, fuel: nat, more: nat)
    requires
        within_depth(h, a, fuel),
        fuel <= more,
    ensures
        equal_spec(h, a, b, more) == equal_spec(h, a, b, fuel),
    decreases fuel,
{
    if a != b {
        match (deref(h, a), deref(h, b)) {
            (Some(HeapObject::Cons(x)), Some(HeapObject::Cons(y))) => {
                assert(HeapObject::Cons(x).refs().contains(x.car));
                assert(HeapObject::Cons(x).refs().contains(x.cdr));
                lemma_equal_fuel(h, x.car, y.car, (fuel - 1) as nat, (more - 1) as nat);
                lemma_equal_fuel(h, x.cdr, y.cdr, (fuel - 1) as nat, (more - 1) as nat);
            },
            (Some(HeapObject::Vec(x)), Some(HeapObject::Vec(y))) => {
                if x@.len() == y@.len() {
                    assert forall|i: int| 0 <= i < x@.len() implies equal_spec(
                        h,
                        x@[i],
                        y@[i],
                        (more - 1) as nat,
                    ) == equal_spec(h, x@[i], y@[i], (fuel - 1) as nat) by {
                        assert(x@[i].refs().contains(x@[i]));
                        assert(HeapObject::Vec(x).refs().contains(x@[i]));
                        lemma_equal_fuel(h, x@[i], y@[i], (fuel - 1) as nat, (more - 1) as nat);
                    }
                    if equal_spec(h, a, b, fuel) {
                        assert forall|i: int| #![trigger x@[i]] 0 <= i < x@.len() implies equal_spec(
                            h,
                            x@[i],
                            y@[i],
                            (more - 1) as nat,
                        ) by {
                            assert(equal_spec(h, x@[i], y@[i], (fuel - 1) as nat));
                        }
                    }
                    if equal_spec(h, a, b, more) {
                        assert forall|i: int| #![trigger x@[i]] 0 <= i < x@.len() implies equal_spec(
                            h,
                            x@[i],
                            y@[i],
                            (fuel - 1) as nat,
                        ) by {
                            assert(equal_spec(h, x@[i], y@[i], (more - 1) as nat));
                        }
                    }
                }
            },
            _ => {},
        }
    }
}

/// On a structure of finite depth, which is one that does not run in a
/// circle, equality to the depth of the number of slots is equality to
/// any greater depth: the bound does not cut it short.
pub proof fn lemma_equal_exact(h: Heap, a: GcObj, b: GcObj, n: nat, more: nat)
    requires
        within_depth(h, a, n),
        h.len() <= more,
    ensures
        equal_spec(h, a, b, more) == equal_spec(h, a, b, h.len()),
{
    lemma_depth_fits(h, a, n);
    lemma_equal_fuel(h, a, b, h.len(), more);
}

/// Whether two objects are the same but for their mark words.
pub open spec fn same_payload(a: HeapObject, b: HeapObject) -> bool {
    a.with_mark(false) == b.with_mark(false)
}

/// Whether the object that a value refers to, if it refers to one, is in
/// the heap `h2` where and what it is in the heap `h`, but for its mark
/// word.
pub open spec fn stays(h: Heap, h2: Heap, o: GcObj) -> bool {
    o.target() matches Some(i) ==> live_at(h, i) ==> live_at(h2, i) && same_payload(
        h[i].unwrap(),
        h2[i].unwrap(),
    )
}

/// Whether a value refers to nothing outside the slots `keep`.
pub open spec fn within(keep: Set<int>, o: GcObj) -> bool {
    o.target() matches Some(j) ==> keep.contains(j)
}

/// Whether the objects in the slots `keep` of the heap `h` refer to
/// nothing outside those slots, and are the same in the heap `h2` but for
/// their mark words.
pub open spec fn preserved(h: Heap, h2: Heap, keep: Set<int>) -> bool {
    &&& forall|i: int| #[trigger]
        keep.contains(i) ==> live_at(h, i) && live_at(h2, i) && same_payload(
            h[i].unwrap(),
            h2[i].unwrap(),
        )
    &&& forall|i: int, o: GcObj|
        keep.contains(i) && #[trigger] h[i].unwrap().refs().contains(o) ==> within(keep, o)
}

/// A value within preserved slots refers to the same object in both
/// heaps, but for the mark word.
pub proof fn lemma_deref_preserved(h: Heap, h2: Heap, keep: Set<int>, o: GcObj)
    requires
        preserved(h, h2, keep),
        within(keep, o),
    ensures
        deref(h, o) is Some <==> deref(h2, o) is Some,
        deref(h, o) matches Some(x) ==> same_payload(x, deref(h2, o).unwrap()) && forall|c: GcObj|
            #[trigger] x.refs().contains(c) ==> within(keep, c),
{
    match o.target() {
        Some(i) => {
            assert(keep.contains(i));
            lemma_with_mark(h[i].unwrap(), false, false);
            lemma_with_mark(h2[i].unwrap(), false, false);
        },
        None => {},
    }
}

/// Equality of values within preserved slots is the same in both heaps.
pub proof fn lemma_equal_preserved(
    h: Heap,
    h2: Heap,
    keep: Set<int>,
    a: GcObj,
    b: GcObj,
    fuel: nat,
)
    requires
        preserved(h, h2, keep),
        within(keep, a),
        within(keep, b),
    ensures
        equal_spec(h2, a, b, fuel) == equal_spec(h, a, b, fuel),
    decreases fuel,
{
    lemma_deref_preserved(h, h2, keep, a);
    lemma_deref_preserved(h, h2, keep, b);
    if a != b && fuel > 0 {
        match (deref(h, a), deref(h, b)) {
            (Some(HeapObject::Cons(x)), Some(HeapObject::Cons(y))) => {
                assert(x.refs().contains(x.car) && x.refs().contains(x.cdr));
                assert(y.refs().contains(y.car) && y.refs().contains(y.cdr));
                assert(HeapObject::Cons(x).refs().contains(x.car));
                assert(HeapObject::Cons(x).refs().contains(x.cdr));
                assert(HeapObject::Cons(y).refs().contains(y.car));
                assert(HeapObject::Cons(y).refs().contains(y.cdr));
                lemma_equal_preserved(h, h2, keep, x.car, y.car, (fuel - 1) as nat);
                lemma_equal_preserved(h, h2, keep, x.cdr, y.cdr, (fuel - 1) as nat);
            },
            (Some(HeapObject::Vec(x)), Some(HeapObject::Vec(y))) => {
                let x2 = deref(h2, a).unwrap()->Vec_0;
                let y2 = deref(h2, b).unwrap()->Vec_0;
                assert(x2.items == x.items && y2.items == y.items);
                if x@.len() == y@.len() {
                    assert forall|i: int| 0 <= i < x@.len() implies equal_spec(
                        h2,
                        x@[i],
                        y@[i],
                        (fuel - 1) as nat,
                    ) == equal_spec(h, x@[i], y@[i], (fuel - 1) as nat) by {
                        assert(x@[i].refs().contains(x@[i]));
                        assert(y@[i].refs().contains(y@[i]));
                        assert(HeapObject::Vec(x).refs().contains(x@[i]));
                        assert(HeapObject::Vec(y).refs().contains(y@[i]));
                        lemma_equal_preserved(h, h2, keep, x@[i], y@[i], (fuel - 1) as nat);
                    }
                    if equal_spec(h, a, b, fuel) {
                        assert forall|i: int| #![trigger x2@[i]] 0 <= i < x2@.len() implies equal_spec(
                            h2,
                            x2@[i],
                            y2@[i],
                            (fuel - 1) as nat,
                        ) by {
                            assert(equal_spec(h, x@[i], y@[i], (fuel - 1) as nat));
                        }
                    }
                    if equal_spec(h2, a, b, fuel) {
                        assert forall|i: int| #![trigger x@[i]] 0 <= i < x@.len() implies equal_spec(
                            h,
                            x@[i],
                            y@[i],
                            (fuel - 1) as nat,
                        ) by {
                            assert(equal_spec(h2, x2@[i], y2@[i], (fuel - 1) as nat));
                        }
                    }
                }
            },
            _ => {},
        }
    }
}

/// The slots of the objects that `seeds` reach.
pub open spec fn reached(h: Heap, seeds: Set<GcObj>) -> Set<int> {
    Set::new(|i: int| reachable(h, seeds, i))
}

/// What the seeds reach in a heap, they and any more seeds reach in any
/// heap that preserves it.
pub proof fn lemma_reach_preserved(
    h: Heap,
    h2: Heap,
    seeds: Set<GcObj>,
    more: Set<GcObj>,
    j: int,
)
    requires
        preserved(h, h2, reached(h, seeds)),
        seeds.subset_of(more),
        reachable(h, seeds, j),
    ensures
        reachable(h2, more, j),
{
    let keep = reached(h, seeds);
    let p = choose|p: Seq<int>| #[trigger] crate::gc::reach::is_path(h, seeds, p) && p.last() == j;
    assert forall|k: int| 0 <= k < p.len() implies keep.contains(#[trigger] p[k]) by {
        let q = p.subrange(0, k + 1);
        assert(q[0] == p[0]);
        assert forall|i: int| #![trigger q[i]] 0 <= i < q.len() - 1 implies edge(h, q[i], q[i + 1]) by {
            assert(q[i] == p[i] && q[i + 1] == p[i + 1]);
            assert(edge(h, p[i], p[i + 1]));
        }
        assert(crate::gc::reach::is_path(h, seeds, q));
        assert(q.last() == p[k]);
        assert(reachable(h, seeds, p[k]));
    }
    assert(keep.contains(p[0]));
    let o = choose|o: GcObj| #[trigger] seeds.contains(o) && o.target() == Some(p[0]);
    assert(more.contains(o));
    assert(crate::gc::reach::seeded(h2, more, p[0]));
    assert forall|k: int| #![trigger p[k]] 0 <= k < p.len() - 1 implies edge(h2, p[k], p[k + 1]) by {
        assert(edge(h, p[k], p[k + 1]));
        assert(keep.contains(p[k]));
        assert(keep.contains(p[k + 1]));
        lemma_with_mark(h[p[k]].unwrap(), false, false);
        lemma_with_mark(h2[p[k]].unwrap(), false, false);
        let c = choose|c: GcObj| #[trigger]
            h[p[k]].unwrap().refs().contains(c) && c.target() == Some(p[k + 1]);
        assert(h2[p[k]].unwrap().refs().contains(c));
    }
    assert(crate::gc::reach::is_path(h2, more, p));
}

/// What the seeds reach in a closed heap is preserved as long as nothing
/// changes.
pub proof fn lemma_preserved_itself(h: Heap, nsyms: nat, seeds: Set<GcObj>)
    requires
        heap_closed(h, nsyms),
    ensures
        preserved(h, h, reached(h, seeds)),
{
    let keep = reached(h, seeds);
    assert forall|i: int| #[trigger] keep.contains(i) implies live_at(h, i) && same_payload(
        h[i].unwrap(),
        h[i].unwrap(),
    ) by {
        lemma_reach_live(h, seeds, i);
    }
    assert forall|i: int, o: GcObj|
        keep.contains(i) && #[trigger] h[i].unwrap().refs().contains(o) implies within(keep, o) by {
        lemma_reach_live(h, seeds, i);
        assert(obj_valid(h, nsyms, o));
        match o.target() {
            Some(j) => {
                assert(edge(h, i, j));
                lemma_reach_step(h, seeds, i, j);
            },
            None => {},
        }
    }
}

/// What the seeds reached in the heap `h0` and is preserved in the heap
/// `h` is preserved by a collection of `h` that starts from those seeds
/// and maybe more.
pub proof fn lemma_preserved_collected(
    h0: Heap,
    seeds0: Set<GcObj>,
    h: Heap,
    seeds: Set<GcObj>,
)
    requires
        preserved(h0, h, reached(h0, seeds0)),
        seeds0.subset_of(seeds),
    ensures
        preserved(h0, collected(h, seeds), reached(h0, seeds0)),
{
    let keep = reached(h0, seeds0);
    let c = collected(h, seeds);
    assert forall|i: int| #[trigger] keep.contains(i) implies live_at(h0, i) && live_at(c, i)
        && same_payload(h0[i].unwrap(), c[i].unwrap()) by {
        lemma_reach_preserved(h0, h, seeds0, seeds, i);
        lemma_with_mark(h[i].unwrap(), false, false);
    }
}

/// What is preserved in a heap is preserved when an object is put into
/// an empty slot of it.
pub proof fn lemma_preserved_inserted(
    h0: Heap,
    keep: Set<int>,
    base: Heap,
    i: int,
    obj: HeapObject,
    after: Heap,
)
    requires
        preserved(h0, base, keep),
        inserted(base, i, obj, after),
    ensures
        preserved(h0, after, keep),
{
    assert forall|k: int| #[trigger] keep.contains(k) implies live_at(h0, k) && live_at(after, k)
        && same_payload(h0[k].unwrap(), after[k].unwrap()) by {
        assert(live_at(base, k));
        assert(after[k] == base[k]);
    }
}

/// A valid value that refers to nothing but preserved objects is valid in
/// the heap that preserves them.
pub proof fn lemma_preserved_valid(h: Heap, h2: Heap, keep: Set<int>, nsyms: nat, o: GcObj)
    requires
        preserved(h, h2, keep),
        within(keep, o),
        obj_valid(h, nsyms, o),
    ensures
        obj_valid(h2, nsyms, o),
{
    match o.target() {
        Some(i) => {
            assert(keep.contains(i));
            lemma_with_mark(h[i].unwrap(), false, false);
            lemma_with_mark(h2[i].unwrap(), false, false);
        },
        None => {},
    }
}

/// The slots that hold an object.
pub open spec fn live_slots(h: Heap) -> Set<int> {
    Set::new(|i: int| live_at(h, i))
}

/// A collection preserves what its seeds reach.
pub proof fn lemma_collected_preserves(h: Heap, nsyms: nat, seeds: Set<GcObj>)
    requires
        heap_closed(h, nsyms),
    ensures
        preserved(h, collected(h, seeds), reached(h, seeds)),
        forall|o: GcObj| seeds.contains(o) && obj_valid(h, nsyms, o) ==> #[trigger] within(
            reached(h, seeds),
            o,
        ),
{
    let c = collected(h, seeds);
    let keep = reached(h, seeds);
    assert forall|i: int| #[trigger] keep.contains(i) implies live_at(h, i) && live_at(c, i)
        && same_payload(h[i].unwrap(), c[i].unwrap()) by {
        lemma_reach_live(h, seeds, i);
        lemma_with_mark(h[i].unwrap(), false, false);
    }
    assert forall|i: int, o: GcObj|
        keep.contains(i) && #[trigger] h[i].unwrap().refs().contains(o) implies within(keep, o) by {
        lemma_reach_live(h, seeds, i);
        assert(obj_valid(h, nsyms, o));
        match o.target() {
            Some(j) => {
                assert(edge(h, i, j));
                lemma_reach_step(h, seeds, i, j);
            },
            None => {},
        }
    }
    assert forall|o: GcObj| seeds.contains(o) && obj_valid(h, nsyms, o) implies #[trigger] within(
        keep,
        o,
    ) by {
        match o.target() {
            Some(j) => {
                lemma_reach_seed(h, seeds, o, j);
            },
            None => {},
        }
    }
}

/// Two valid values that the seeds of a collection refer to are equal
/// after the collection exactly if they were before.
pub proof fn lemma_equal_collected(
    h: Heap,
    nsyms: nat,
    seeds: Set<GcObj>,
    a: GcObj,
    b: GcObj,
    fuel: nat,
)
    requires
        heap_closed(h, nsyms),
        obj_valid(h, nsyms, a),
        obj_valid(h, nsyms, b),
        seeds.contains(a),
        seeds.contains(b),
    ensures
        equal_spec(collected(h, seeds), a, b, fuel) == equal_spec(h, a, b, fuel),
{
    lemma_collected_preserves(h, nsyms, seeds);
    lemma_equal_preserved(h, collected(h, seeds), reached(h, seeds), a, b, fuel);
}

/// An allocation into an empty slot preserves every object.
pub proof fn lemma_inserted_preserves(
    before: Heap,
    nsyms: nat,
    i: int,
    obj: HeapObject,
    after: Heap,
)
    requires
        heap_closed(before, nsyms),
        inserted(before, i, obj, after),
    ensures
        preserved(before, after, live_slots(before)),
        forall|o: GcObj| obj_valid(before, nsyms, o) ==> #[trigger] within(live_slots(before), o),
{
    let keep = live_slots(before);
    assert forall|j: int| #[trigger] keep.contains(j) implies live_at(before, j) && live_at(after, j)
        && same_payload(before[j].unwrap(), after[j].unwrap()) by {
        assert(after[j] == before[j]);
    }
    assert forall|j: int, o: GcObj|
        keep.contains(j) && #[trigger] before[j].unwrap().refs().contains(o) implies within(
        keep,
        o,
    ) by {
        assert(obj_valid(before, nsyms, o));
    }
}

/// Structural equality of two valid values, to a depth of `fuel`
/// references. Down a list it walks from cell to cell, and descends only
/// into the items.
#[verifier::loop_isolation(false)]
pub fn equal_bounded(cx: &Context, a: GcObj, b: GcObj, fuel: usize) -> (r: bool)
    requires
        cx.wf(),
        cx.valid(a),
        cx.valid(b),
    ensures
        r == equal_spec(cx.block@, a, b, fuel as nat),
    decreases fuel,
{
    let mut x = a;
    let mut y = b;
    let mut left = fuel;
    loop
        invariant
            left <= fuel,
            cx.valid(x),
            cx.valid(y),
            equal_spec(cx.block@, a, b, fuel as nat) == equal_spec(cx.block@, x, y, left as nat),
        decreases left,
    {
        if x.ptr_eq(y) {
            return true;
        }
        proof {
            lemma_deref_valid(cx.block@, cx.symbols@.len(), x);
            lemma_deref_valid(cx.block@, cx.symbols@.len(), y);
        }
        match (x.get(), y.get()) {
            (Object::Cons(p), Object::Cons(q)) => {
                if left == 0 {
                    return false;
                }
                if !equal_bounded(cx, cx.car(p), cx.car(q), left - 1) {
                    return false;
                }
                x = cx.cdr(p);
                y = cx.cdr(q);
                left = left - 1;
            },
            (Object::Vec(p), Object::Vec(q)) => {
                let va = cx.block.vector(p);
                let vb = cx.block.vector(q);
                if left == 0 || va.len() != vb.len() {
                    return false;
                }
                let n = va.len();
                let mut i: usize = 0;
                while i < n
                    invariant
                        i <= n,
                        n == va@.len(),
                        n == vb@.len(),
                        forall|k: int|
                            #![trigger va@[k]]
                            0 <= k < i ==> equal_spec(
                                cx.block@,
                                va@[k],
                                vb@[k],
                                (left - 1) as nat,
                            ),
                    decreases n - i,
                {
                    let u = va.get(i).unwrap();
                    let v = vb.get(i).unwrap();
                    proof {
                        assert(u.refs().contains(u) && v.refs().contains(v));
                        assert(cx.block@[p.idx as int].unwrap().refs().contains(u));
                        assert(cx.block@[q.idx as int].unwrap().refs().contains(v));
                    }
                    if !equal_bounded(cx, u, v, left - 1) {
                        proof {
                            let xs = deref(cx.block@, x).unwrap()->Vec_0;
                            let ys = deref(cx.block@, y).unwrap()->Vec_0;
                            assert(xs@[i as int] == u && ys@[i as int] == v);
                        }
                        return false;
                    }
                    i += 1;
                }
                return true;
            },
            (Object::String(p), Object::String(q)) => {
                return cx.block.string(p).text == cx.block.string(q).text;
            },
            (Object::Float(p), Object::Float(q)) => {
                return cx.block.float(p).bits == cx.block.float(q).bits;
            },
            _ => {
                return false;
            },
        }
    }
}

} // verus!
