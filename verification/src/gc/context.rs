//! The context: the arena together with its roots, and allocation and
//! collection through it.
use crate::env::{Env, SymbolMap};
use crate::gc::collect::{cleared, stack_refs};
use crate::gc::heap::{live_at, live_count, marked_at, next_slot, Block, Heap};
use crate::gc::reach::{edge, lemma_reach_live, lemma_reach_seed, lemma_reach_step, reachable};
use crate::gc::root::{Root, RootSet};
use crate::gc::trace::{lemma_traced_then, pushed_from, GcState, Trace};
use crate::object::boxed::{lemma_with_mark, HeapObject};
use crate::object::tagged::{GcObj, Object, Tag};
use std::collections::HashSet;
use vstd::prelude::*;

verus! {

/// Whether a value may be used with a heap of `nsyms` symbols: an
/// integer, a symbol of the table, or a reference to a live object of the
/// variant that its tag names.
pub open spec fn obj_valid(h: Heap, nsyms: nat, o: GcObj) -> bool {
    match o@ {
        Object::Int(_) => true,
        Object::Symbol(s) => s.id < nsyms,
        Object::Float(r) => live_at(h, r.idx as int) && h[r.idx as int].unwrap() is Float,
        Object::String(r) => live_at(h, r.idx as int) && h[r.idx as int].unwrap() is String,
        Object::Cons(r) => live_at(h, r.idx as int) && h[r.idx as int].unwrap() is Cons,
        Object::Vec(r) => live_at(h, r.idx as int) && h[r.idx as int].unwrap() is Vec,
        Object::LispFn(r) => live_at(h, r.idx as int) && h[r.idx as int].unwrap() is LispFn,
        Object::SubrFn(r) => live_at(h, r.idx as int) && h[r.idx as int].unwrap() is SubrFn,
    }
}

/// Whether every reference that an object of the heap holds is valid: no
/// object refers to a freed one.
pub open spec fn heap_closed(h: Heap, nsyms: nat) -> bool {
    forall|i: int, o: GcObj|
        live_at(h, i) && #[trigger] h[i].unwrap().refs().contains(o) ==> obj_valid(h, nsyms, o)
}

/// The heap after a collection that keeps what `seeds` reach: a reachable
/// object stays in its slot, with a cleared visited bit, and every other
/// slot is empty.
pub open spec fn collected(h: Heap, seeds: Set<GcObj>) -> Heap {
    Seq::new(
        h.len(),
        |i: int|
            if reachable(h, seeds, i) {
                cleared(h[i])
            } else {
                None
            },
    )
}

/// Whether `after` is the heap `before` with the object `obj` put into
/// the slot `i`, which is the one that the next allocation fills: empty,
/// or new.
pub open spec fn inserted(before: Heap, i: int, obj: HeapObject, after: Heap) -> bool {
    &&& i == next_slot(before)
    &&& 0 <= i <= before.len()
    &&& !live_at(before, i)
    &&& after == if i < before.len() {
        before.update(i, Some(obj))
    } else {
        before.push(Some(obj))
    }
}

/// A collection keeps the heap closed, and keeps valid every value whose
/// object, if it refers to one, is reachable.
pub proof fn lemma_collected_valid(h: Heap, nsyms: nat, seeds: Set<GcObj>)
    requires
        heap_closed(h, nsyms),
    ensures
        heap_closed(collected(h, seeds), nsyms),
        forall|i: int| live_at(collected(h, seeds), i) <==> reachable(h, seeds, i),
        forall|i: int| !marked_at(collected(h, seeds), i),
        forall|o: GcObj|
            obj_valid(h, nsyms, o) && (o.target() matches Some(i) ==> reachable(h, seeds, i))
                ==> #[trigger] obj_valid(collected(h, seeds), nsyms, o),
        forall|o: GcObj|
            seeds.contains(o) && obj_valid(h, nsyms, o) ==> #[trigger] obj_valid(
                collected(h, seeds),
                nsyms,
                o,
            ),
{
    let c = collected(h, seeds);
    assert forall|i: int| live_at(c, i) <==> reachable(h, seeds, i) by {
        if reachable(h, seeds, i) {
            lemma_reach_live(h, seeds, i);
        }
    }
    assert forall|i: int| !marked_at(c, i) by {
        if live_at(c, i) {
            lemma_reach_live(h, seeds, i);
            lemma_with_mark(h[i].unwrap(), false, false);
        }
    }
    assert forall|o: GcObj|
        obj_valid(h, nsyms, o) && (o.target() matches Some(i) ==> reachable(
            h,
            seeds,
            i,
        )) implies #[trigger] obj_valid(c, nsyms, o) by {
        match o.target() {
            Some(i) => {
                lemma_with_mark(h[i].unwrap(), false, false);
            },
            None => {},
        }
    }
    assert forall|o: GcObj| seeds.contains(o) && obj_valid(h, nsyms, o) implies #[trigger] obj_valid(
        c,
        nsyms,
        o,
    ) by {
        match o.target() {
            Some(i) => {
                lemma_reach_seed(h, seeds, o, i);
            },
            None => {},
        }
    }
    assert forall|i: int, o: GcObj|
        live_at(c, i) && #[trigger] c[i].unwrap().refs().contains(o) implies obj_valid(
        c,
        nsyms,
        o,
    ) by {
        lemma_reach_live(h, seeds, i);
        lemma_with_mark(h[i].unwrap(), false, false);
        assert(h[i].unwrap().refs().contains(o));
        assert(obj_valid(h, nsyms, o));
        match o.target() {
            Some(j) => {
                assert(edge(h, i, j));
                lemma_reach_step(h, seeds, i, j);
            },
            None => {},
        }
    }
}

/// Putting a closed object into an empty slot keeps the heap closed and
/// every valid value valid.
pub proof fn lemma_inserted_valid(before: Heap, nsyms: nat, i: int, obj: HeapObject, after: Heap)
    requires
        heap_closed(before, nsyms),
        inserted(before, i, obj, after),
        forall|o: GcObj| #[trigger] obj.refs().contains(o) ==> obj_valid(before, nsyms, o),
    ensures
        heap_closed(after, nsyms),
        forall|o: GcObj| obj_valid(before, nsyms, o) ==> #[trigger] obj_valid(after, nsyms, o),
        live_at(after, i),
        after[i] == Some(obj),
        forall|j: int| live_at(before, j) ==> live_at(after, j) && after[j] == before[j],
{
    assert forall|j: int| live_at(before, j) implies live_at(after, j) && after[j] == before[j] by {}
    assert forall|o: GcObj| obj_valid(before, nsyms, o) implies #[trigger] obj_valid(
        after,
        nsyms,
        o,
    ) by {}
    assert forall|j: int, o: GcObj|
        live_at(after, j) && #[trigger] after[j].unwrap().refs().contains(o) implies obj_valid(
        after,
        nsyms,
        o,
    ) by {
        if j == i {
            assert(obj.refs().contains(o));
        } else {
            assert(live_at(before, j));
            assert(before[j].unwrap().refs().contains(o));
        }
    }
}

/// What a root slot refers to is there after a collection, in the slot
/// where it was, and is what it was but for a cleared visited bit: a
/// rooted value refers to the same object before and after.
pub proof fn lemma_rooted_survives(before: &Context, after: &Context, r: Root, o: GcObj)
    requires
        before.wf(),
        after.block@ == collected(before.block@, before.root_refs()),
        after.roots@ == before.roots@,
        after.symbols == before.symbols,
        before.roots.contains(r),
        before.roots@[r.slot as int].refs().contains(o),
    ensures
        after.roots@[r.slot as int].refs().contains(o),
        after.valid(o),
        o.target() matches Some(i) ==> live_at(after.block@, i) && after.block@[i] == cleared(
            before.block@[i],
        ),
{
    let seeds = before.root_refs();
    assert(before.roots.refs().contains(o));
    assert(seeds.contains(o));
    assert(before.valid(o));
    lemma_collected_valid(before.block@, before.symbols@.len(), seeds);
    match o.target() {
        Some(i) => {
            lemma_reach_seed(before.block@, seeds, o, i);
        },
        None => {},
    }
}

/// The fewest objects at which a collection is due.
pub const MIN_THRESHOLD: usize = 1024;

/// The number of objects at which the next collection is due when `live`
/// objects have survived the last: twice as many, and never fewer than
/// [`MIN_THRESHOLD`].
pub open spec fn next_threshold(live: nat) -> usize {
    if 2 * live <= MIN_THRESHOLD {
        MIN_THRESHOLD
    } else if 2 * live >= usize::MAX {
        usize::MAX
    } else {
        (2 * live) as usize
    }
}

/// The arena with all that keeps its objects alive: the scoped roots, the
/// interned symbols with their function cells, and the environment.
/// Whoever holds it mutably may allocate, and thereby collect.
pub struct Context {
    pub block: Block,
    pub roots: RootSet,
    pub symbols: SymbolMap,
    pub env: Env,
    /// The features that were provided, by symbol.
    pub features: HashSet<u64>,
    /// The number of objects at which an allocation collects first.
    pub threshold: usize,
}

impl Context {
    /// The references from which a collection starts: those in the root
    /// slots, in the function cells of the symbols, and in the
    /// environment.
    pub open spec fn root_refs(&self) -> Set<GcObj> {
        self.roots.refs().union(self.symbols.refs()).union(self.env.refs())
    }

    /// Whether a value may be used with this context.
    pub open spec fn valid(&self, o: GcObj) -> bool {
        obj_valid(self.block@, self.symbols@.len(), o)
    }

    /// Whether every value of a sequence may be used with this context.
    pub open spec fn all_valid(&self, s: Seq<GcObj>) -> bool {
        forall|i: int| 0 <= i < s.len() ==> self.valid(#[trigger] s[i])
    }

    /// The invariant of the context: arena and symbol table are well
    /// formed, no object refers to a freed one, and neither does a root.
    pub open spec fn wf(&self) -> bool {
        &&& self.block.wf()
        &&& self.symbols.wf()
        &&& heap_closed(self.block@, self.symbols@.len())
        &&& forall|o: GcObj| #[trigger] self.root_refs().contains(o) ==> self.valid(o)
    }

    /// Whether the next allocation collects first.
    pub open spec fn collection_due(&self) -> bool {
        live_count(self.block@) >= self.threshold
    }

    /// Whether the object in slot `i` can be reached from the roots.
    pub open spec fn reachable(&self, i: int) -> bool {
        reachable(self.block@, self.root_refs(), i)
    }

    /// Whether everything but the arena and the threshold is the same in
    /// `other`.
    pub open spec fn same_roots(&self, other: &Context) -> bool {
        &&& self.roots@ == other.roots@
        &&& self.symbols == other.symbols
        &&& self.env == other.env
        &&& self.features == other.features
    }

    /// A context with an empty arena, an empty environment, the symbols
    /// `nil` and `t`, and the given root set.
    pub fn new(roots: RootSet) -> (cx: Context)
        requires
            forall|o: GcObj|
                roots.refs().contains(o) ==> obj_valid(Seq::<Option<HeapObject>>::empty(), 2, o),
        ensures
            cx.wf(),
            cx.roots == roots,
            cx.block@.len() == 0,
            cx.symbols@.len() == 2,
            cx.env.vars@ == Map::<u64, GcObj>::empty(),
            cx.env.props@ == Map::<u64, Vec<(crate::object::tagged::Symbol, GcObj)>>::empty(),
            cx.features@ == Set::<u64>::empty(),
            cx.threshold == MIN_THRESHOLD,
    {
        let cx = Context {
            block: Block::new(),
            roots,
            symbols: SymbolMap::new(),
            env: Env::new(),
            features: HashSet::new(),
            threshold: MIN_THRESHOLD,
        };
        proof {
            assert forall|o: GcObj| #[trigger] cx.root_refs().contains(o) implies cx.valid(o) by {
                if cx.symbols.refs().contains(o) {
                    let i = choose|i: int|
                        0 <= i < cx.symbols@.len() && i < cx.symbols@.len() && #[trigger] cx.symbols@[i].refs().contains(
                            o,
                        );
                    assert(i == 0 || i == 1);
                }
                if cx.env.refs().contains(o) {
                    if cx.env.vars.refs().contains(o) {
                        let k = choose|k: u64|
                            cx.env.vars@.contains_key(k) && #[trigger] cx.env.vars@[k].refs().contains(o);
                    } else {
                        let k = choose|k: u64|
                            cx.env.props@.contains_key(k) && #[trigger] cx.env.props@[k].refs().contains(
                                o,
                            );
                    }
                }
            }
        }
        cx
    }

    /// Number of live objects.
    pub fn len(&self) -> (n: usize)
        requires
            self.wf(),
        ensures
            n == live_count(self.block@),
    {
        self.block.len()
    }

    /// Runs a collection that starts from the roots and from the
    /// references that leave `keep`.
    pub fn collect_keeping<T: Trace>(&mut self, keep: &T)
        requires
            old(self).wf(),
            forall|o: GcObj| #[trigger] keep.refs().contains(o) ==> old(self).valid(o),
        ensures
            final(self).wf(),
            final(self).same_roots(old(self)),
            final(self).block@ == collected(old(self).block@, old(self).root_refs().union(keep.refs())),
            final(self).threshold == next_threshold(live_count(final(self).block@)),
            forall|o: GcObj| #[trigger] keep.refs().contains(o) ==> final(self).valid(o),
    {
        let mut state = GcState::new();
        let ghost s0 = state@;
        self.roots.trace(&mut state);
        let ghost s1 = state@;
        self.symbols.trace(&mut state);
        let ghost s2 = state@;
        self.env.trace(&mut state);
        let ghost s3 = state@;
        keep.trace(&mut state);
        let ghost s4 = state@;
        let ghost seeds = self.root_refs().union(keep.refs());
        proof {
            lemma_traced_then(s0, s1, s2, self.roots.refs(), self.symbols.refs());
            lemma_traced_then(
                s0,
                s2,
                s3,
                self.roots.refs().union(self.symbols.refs()),
                self.env.refs(),
            );
            lemma_traced_then(s0, s3, s4, self.root_refs(), keep.refs());
            assert forall|o: GcObj| seeds.contains(o) <==> stack_refs(s4).contains(o) by {
                if seeds.contains(o) {
                    assert(pushed_from(s4, 0, o));
                    let k = choose|k: int| 0 <= k < s4.len() && s4[k] == o;
                    assert(s4.contains(o));
                }
                if stack_refs(s4).contains(o) {
                    let k = choose|k: int| 0 <= k < s4.len() && s4[k] == o;
                    assert(pushed_from(s4, 0, o));
                }
            }
            assert(seeds =~= stack_refs(s4));
        }
        self.block.collect(&mut state);
        let live = self.block.len();
        self.threshold = if live > usize::MAX / 2 {
            usize::MAX
        } else if 2 * live <= MIN_THRESHOLD {
            MIN_THRESHOLD
        } else {
            2 * live
        };
        proof {
            let nsyms = self.symbols@.len();
            assert(self.block@ =~= collected(old(self).block@, seeds));
            lemma_collected_valid(old(self).block@, nsyms, seeds);
            assert forall|o: GcObj| seeds.contains(o) implies self.valid(o) by {
                assert(old(self).valid(o)) by {
                    if !keep.refs().contains(o) {
                        assert(old(self).root_refs().contains(o));
                    }
                }
                assert(obj_valid(collected(old(self).block@, seeds), nsyms, o));
            }
            assert forall|o: GcObj| #[trigger] self.root_refs().contains(o) implies self.valid(o) by {
                assert(seeds.contains(o));
            }
            assert forall|o: GcObj| keep.refs().contains(o) implies self.valid(o) by {
                assert(seeds.contains(o));
            }
        }
    }

    /// Runs a collection: frees every object that cannot be reached from
    /// the roots, and leaves the others where and as they were, unmarked.
    pub fn garbage_collect(&mut self)
        requires
            old(self).wf(),
        ensures
            final(self).wf(),
            final(self).same_roots(old(self)),
            final(self).block@ == collected(old(self).block@, old(self).root_refs()),
            final(self).threshold == next_threshold(live_count(final(self).block@)),
            forall|i: int| live_at(final(self).block@, i) <==> old(self).reachable(i),
            forall|i: int|
                old(self).reachable(i) ==> final(self).block@[i] == cleared(old(self).block@[i]),
            forall|i: int| !marked_at(final(self).block@, i),
    {
        let keep: Option<GcObj> = None;
        self.collect_keeping(&keep);
        proof {
            assert(old(self).root_refs().union(keep.refs()) =~= old(self).root_refs());
            lemma_collected_valid(old(self).block@, self.symbols@.len(), old(self).root_refs());
            assert forall|i: int| old(self).reachable(i) implies self.block@[i] == cleared(
                old(self).block@[i],
            ) by {
                lemma_reach_live(old(self).block@, old(self).root_refs(), i);
            }
        }
    }

    /// Allocates `obj`, unmarked, without collecting first, whether a
    /// collection is due or not. Fails only when the arena is full;
    /// nothing changes then.
    pub fn add_now(&mut self, obj: HeapObject) -> (r: Option<GcObj>)
        requires
            old(self).wf(),
            forall|o: GcObj| #[trigger] obj.refs().contains(o) ==> old(self).valid(o),
        ensures
            final(self).wf(),
            final(self).same_roots(old(self)),
            final(self).threshold == old(self).threshold,
            match r {
                Some(g) => {
                    &&& g.tag_spec() == obj.kind()
                    &&& g.target() matches Some(i)
                    &&& inserted(old(self).block@, i, obj.with_mark(false), final(self).block@)
                    &&& final(self).valid(g)
                },
                None => final(self).block@ == old(self).block@ && final(self).block.full(),
            },
            forall|o: GcObj| old(self).valid(o) ==> #[trigger] final(self).valid(o),
    {
        let ghost base = self.block@;
        let tag = obj.tag();
        let ghost given = obj;
        let ghost kept = self.root_refs();
        let ghost nsyms = self.symbols@.len();
        assert(forall|o: GcObj| kept.contains(o) ==> obj_valid(base, nsyms, o)) by {
            assert forall|o: GcObj| kept.contains(o) implies obj_valid(base, nsyms, o) by {
                assert(self.root_refs().contains(o));
                assert(self.valid(o));
            }
        }
        let mut obj = obj;
        obj.unmark();
        proof {
            lemma_with_mark(given, false, false);
            assert(obj.refs() == given.refs());
        }
        match self.block.insert(obj) {
            Some(r) => {
                proof {
                    lemma_inserted_valid(base, nsyms, r.idx as int, obj, self.block@);
                    assert(self.root_refs() == kept);
                    assert forall|o: GcObj| #[trigger] self.root_refs().contains(o) implies self.valid(
                        o,
                    ) by {
                        assert(obj_valid(base, nsyms, o));
                    }
                }
                let g = match tag {
                    Tag::Float => Object::Float(r).into_obj(),
                    Tag::String => Object::String(r).into_obj(),
                    Tag::Cons => Object::Cons(r).into_obj(),
                    Tag::Vec => Object::Vec(r).into_obj(),
                    Tag::LispFn => Object::LispFn(r).into_obj(),
                    _ => Object::SubrFn(r).into_obj(),
                };
                Some(g)
            },
            None => None,
        }
    }

    /// The heap on which an allocation of `obj` puts the object: the
    /// heap as it is, or, if a collection is due, what is left of it when
    /// the roots and the references in `obj` are kept.
    pub open spec fn add_base(&self, obj: HeapObject) -> Heap {
        if self.collection_due() {
            collected(self.block@, self.root_refs().union(obj.refs()))
        } else {
            self.block@
        }
    }

    /// Allocates `obj`, unmarked, and returns the reference to it under
    /// the tag of its variant. Collects first if a collection is due;
    /// then only what the roots or `obj` reach is still alive. Fails only
    /// when the arena is full.
    pub fn add(&mut self, obj: HeapObject) -> (r: Option<GcObj>)
        requires
            old(self).wf(),
            forall|o: GcObj| #[trigger] obj.refs().contains(o) ==> old(self).valid(o),
        ensures
            final(self).wf(),
            final(self).same_roots(old(self)),
            match r {
                Some(g) => {
                    &&& g.tag_spec() == obj.kind()
                    &&& g.target() matches Some(i)
                    &&& inserted(
                        old(self).add_base(obj),
                        i,
                        obj.with_mark(false),
                        final(self).block@,
                    )
                    &&& final(self).valid(g)
                },
                None => final(self).block@ == old(self).add_base(obj) && final(self).block.full(),
            },
            forall|o: GcObj| #[trigger] obj.refs().contains(o) ==> final(self).valid(o),
    {
        if self.block.len() >= self.threshold {
            self.collect_keeping(&obj);
        }
        self.add_now(obj)
    }
}

} // verus!
