//! Symbols, variables, properties and features, through the context that
//! keeps what they refer to alive.
use crate::env::{lemma_map_refs_insert, lemma_map_refs_remove, map_refs, plist_get, plist_put};
use crate::gc::context::{obj_valid, Context};
use crate::gc::trace::{lemma_seq_refs_push, lemma_seq_refs_update, seq_refs, Trace};
use crate::object::tagged::{Function, GcObj, Symbol};
use vstd::prelude::*;

verus! {

/// A value that is valid stays valid when symbols are added.
pub proof fn lemma_valid_more_symbols(h: crate::gc::heap::Heap, n: nat, m: nat, o: GcObj)
    requires
        n <= m,
        obj_valid(h, n, o),
    ensures
        obj_valid(h, m, o),
{
}

impl Context {
    /// Whether the arena, the roots and the threshold are the same in
    /// `other`.
    pub open spec fn same_heap(&self, other: &Context) -> bool {
        &&& self.block == other.block
        &&& self.roots@ == other.roots@
        &&& self.threshold == other.threshold
    }

    /// The symbol of the given name: the one and only that the table
    /// holds, or a new one.
    pub fn intern(&mut self, name: &str) -> (s: Symbol)
        requires
            old(self).wf(),
            old(self).symbols.has_room() || old(self).symbols.index@.contains_key(name@),
        ensures
            final(self).wf(),
            final(self).same_heap(old(self)),
            final(self).env == old(self).env,
            final(self).features == old(self).features,
            final(self).symbols.contains(s),
            final(self).symbols.name_of(s) == name@,
            forall|x: Symbol|
                old(self).symbols.contains(x) && old(self).symbols.name_of(x) == name@ ==> s == x,
            old(self).symbols@.len() <= final(self).symbols@.len() <= old(self).symbols@.len() + 1,
            forall|i: int|
                0 <= i < old(self).symbols@.len() ==> final(self).symbols@[i] == old(
                    self,
                ).symbols@[i],
            !old(self).symbols.contains(s) ==> final(self).symbols@[s.id as int].func is None,
            forall|o: GcObj| old(self).valid(o) ==> #[trigger] final(self).valid(o),
    {
        let ghost n = self.symbols@.len();
        let s = self.symbols.intern(name);
        proof {
            let m = self.symbols@.len();
            let h = self.block@;
            assert forall|i: int, o: GcObj|
                crate::gc::heap::live_at(h, i) && #[trigger] h[i].unwrap().refs().contains(
                    o,
                ) implies obj_valid(h, m, o) by {
                lemma_valid_more_symbols(h, n, m, o);
            }
            assert forall|o: GcObj| #[trigger] self.symbols.refs().contains(o) implies old(
                self,
            ).symbols.refs().contains(o) by {
                let i = choose|i: int|
                    0 <= i < m && i < self.symbols@.len() && #[trigger] self.symbols@[i].refs().contains(
                        o,
                    );
                if i < n {
                    assert(old(self).symbols@[i].refs().contains(o));
                }
            }
            assert forall|o: GcObj| #[trigger] self.root_refs().contains(o) implies self.valid(o) by {
                assert(old(self).root_refs().contains(o));
                lemma_valid_more_symbols(h, n, m, o);
            }
            assert forall|o: GcObj| old(self).valid(o) implies #[trigger] self.valid(o) by {
                lemma_valid_more_symbols(h, n, m, o);
            }
        }
        s
    }

    /// Puts a function into the function cell of a symbol.
    pub fn set_func(&mut self, s: Symbol, f: Function)
        requires
            old(self).wf(),
            old(self).symbols.contains(s),
            f.as_object().wf(),
            old(self).valid(f.as_object().encode()),
        ensures
            final(self).wf(),
            final(self).same_heap(old(self)),
            final(self).env == old(self).env,
            final(self).features == old(self).features,
            final(self).symbols@.len() == old(self).symbols@.len(),
            final(self).symbols.func_of(s) == Some(f),
            forall|x: Symbol|
                old(self).symbols.contains(x) ==> final(self).symbols.name_of(x) == old(
                    self,
                ).symbols.name_of(x),
            forall|i: int|
                0 <= i < old(self).symbols@.len() && i != s.id ==> final(self).symbols@[i] == old(
                    self,
                ).symbols@[i],
    {
        self.symbols.set_func(s, f);
        proof {
            let g = self.symbols@[s.id as int].func.unwrap();
            crate::object::tagged::lemma_view_injective(g, f.as_object().encode());
            crate::object::tagged::lemma_encode_decode(f.as_object());
            assert forall|o: GcObj| #[trigger] self.symbols.refs().contains(o) implies old(
                self,
            ).symbols.refs().contains(o) || o == g by {
                let i = choose|i: int|
                    0 <= i < self.symbols@.len() && i < self.symbols@.len() && #[trigger] self.symbols@[i].refs().contains(
                        o,
                    );
                if i != s.id {
                    assert(old(self).symbols@[i].refs().contains(o));
                }
            }
            assert forall|o: GcObj| #[trigger] self.root_refs().contains(o) implies self.valid(o) by {
                if o != g {
                    assert(old(self).root_refs().contains(o));
                }
            }
        }
    }

    /// Empties the function cell of a symbol.
    pub fn unbind_func(&mut self, s: Symbol)
        requires
            old(self).wf(),
            old(self).symbols.contains(s),
        ensures
            final(self).wf(),
            final(self).same_heap(old(self)),
            final(self).env == old(self).env,
            final(self).features == old(self).features,
            final(self).symbols@.len() == old(self).symbols@.len(),
            final(self).symbols.func_of(s) is None,
            forall|x: Symbol|
                old(self).symbols.contains(x) ==> final(self).symbols.name_of(x) == old(
                    self,
                ).symbols.name_of(x),
            forall|i: int|
                0 <= i < old(self).symbols@.len() && i != s.id ==> final(self).symbols@[i] == old(
                    self,
                ).symbols@[i],
    {
        self.symbols.unbind_func(s);
        proof {
            assert forall|o: GcObj| #[trigger] self.symbols.refs().contains(o) implies old(
                self,
            ).symbols.refs().contains(o) by {
                let i = choose|i: int|
                    0 <= i < self.symbols@.len() && i < self.symbols@.len() && #[trigger] self.symbols@[i].refs().contains(
                        o,
                    );
                if i != s.id {
                    assert(old(self).symbols@[i].refs().contains(o));
                }
            }
            assert forall|o: GcObj| #[trigger] self.root_refs().contains(o) implies self.valid(o) by {
                assert(old(self).root_refs().contains(o));
            }
        }
    }

    /// What the function cell of a symbol holds, as a value: the function,
    /// or nothing.
    pub fn func_obj(&self, s: Symbol) -> (r: Option<GcObj>)
        requires
            self.wf(),
            self.symbols.contains(s),
        ensures
            r == self.symbols@[s.id as int].func,
            r is Some <==> self.symbols.func_of(s) is Some,
            r matches Some(g) ==> self.valid(g) && self.symbols.func_of(s) is Some && g@
                == self.symbols.func_of(s).unwrap().as_object(),
    {
        let r = match self.symbols.func(s) {
            Some(f) => Some(f.into_obj()),
            None => None,
        };
        proof {
            match r {
                Some(g) => {
                    let c = self.symbols@[s.id as int].func.unwrap();
                    crate::object::tagged::lemma_view_injective(g, c);
                    assert(self.symbols@[s.id as int].refs().contains(g));
                    assert(self.symbols.refs().contains(g));
                    assert(self.root_refs().contains(g));
                },
                None => {},
            }
        }
        r
    }

    /// Binds a variable.
    pub fn set_var(&mut self, s: Symbol, value: GcObj)
        requires
            old(self).wf(),
            old(self).valid(value),
        ensures
            final(self).wf(),
            final(self).same_heap(old(self)),
            final(self).symbols == old(self).symbols,
            final(self).features == old(self).features,
            final(self).env.props == old(self).env.props,
            final(self).env.var(s) == Some(value),
            forall|x: Symbol| x != s ==> final(self).env.var(x) == old(self).env.var(x),
    {
        self.env.set_var(s, value);
        proof {
            lemma_map_refs_insert(old(self).env.vars@, s.id, value);
            assert forall|o: GcObj| #[trigger] self.root_refs().contains(o) implies self.valid(o) by {
                if self.env.vars.refs().contains(o) {
                    assert(map_refs(old(self).env.vars@).union(value.refs()).contains(o));
                    if o != value {
                        assert(old(self).env.refs().contains(o));
                        assert(old(self).root_refs().contains(o));
                    }
                } else {
                    assert(old(self).root_refs().contains(o));
                }
            }
        }
    }

    /// Unbinds a variable.
    pub fn unset_var(&mut self, s: Symbol)
        requires
            old(self).wf(),
        ensures
            final(self).wf(),
            final(self).same_heap(old(self)),
            final(self).symbols == old(self).symbols,
            final(self).features == old(self).features,
            final(self).env.props == old(self).env.props,
            final(self).env.var(s) is None,
            forall|x: Symbol| x != s ==> final(self).env.var(x) == old(self).env.var(x),
    {
        self.env.unset_var(s);
        proof {
            lemma_map_refs_remove(old(self).env.vars@, s.id);
            assert forall|o: GcObj| #[trigger] self.root_refs().contains(o) implies self.valid(o) by {
                if self.env.vars.refs().contains(o) {
                    assert(old(self).env.vars.refs().contains(o));
                    assert(old(self).env.refs().contains(o));
                }
                assert(old(self).root_refs().contains(o));
            }
        }
    }

    /// The value of a variable, if it is bound.
    pub fn var(&self, s: Symbol) -> (v: Option<GcObj>)
        requires
            self.wf(),
        ensures
            v == self.env.var(s),
            v matches Some(o) ==> self.valid(o),
    {
        let v = self.env.get_var(s);
        proof {
            match v {
                Some(o) => {
                    assert(self.env.vars@.contains_key(s.id) && self.env.vars@[s.id].refs().contains(
                        o,
                    ));
                    assert(self.env.vars.refs().contains(o));
                    assert(self.env.refs().contains(o));
                    assert(self.root_refs().contains(o));
                },
                None => {},
            }
        }
        v
    }

    /// Gives the property `name` of the symbol `s` the value `value`.
    pub fn set_prop(&mut self, s: Symbol, name: Symbol, value: GcObj)
        requires
            old(self).wf(),
            old(self).valid(value),
        ensures
            final(self).wf(),
            final(self).same_heap(old(self)),
            final(self).symbols == old(self).symbols,
            final(self).features == old(self).features,
            final(self).env.vars == old(self).env.vars,
            final(self).env.plist(s) == plist_put(old(self).env.plist(s), name, value),
            forall|x: Symbol| x != s ==> final(self).env.plist(x) == old(self).env.plist(x),
    {
        self.env.set_prop(s, name, value);
        proof {
            let before = old(self).env.props@;
            let after = self.env.props@;
            let pl = old(self).env.plist(s);
            crate::env::lemma_prop_index(pl, name);
            assert forall|o: GcObj| #[trigger] map_refs(after).contains(o) implies map_refs(
                before,
            ).contains(o) || o == value by {
                let k = choose|k: u64| after.contains_key(k) && #[trigger] after[k].refs().contains(o);
                if k == s.id {
                    assert(after[k]@ == plist_put(pl, name, value));
                    let i = crate::env::prop_index(pl, name);
                    if i < pl.len() {
                        lemma_seq_refs_update(pl, i, (name, value));
                    } else {
                        lemma_seq_refs_push(pl, (name, value));
                    }
                    assert(seq_refs(pl, pl.len() as int).union((name, value).refs()).contains(o));
                    if o != value {
                        assert(seq_refs(pl, pl.len() as int).contains(o));
                        assert(before.contains_key(s.id));
                        assert(before[s.id].refs().contains(o));
                    }
                } else {
                    let x = Symbol { id: k };
                    assert(self.env.plist(x) == old(self).env.plist(x));
                    assert(before.contains_key(k));
                    assert(before[k]@ == after[k]@);
                    assert(before[k].refs().contains(o));
                }
            }
            assert forall|o: GcObj| #[trigger] self.root_refs().contains(o) implies self.valid(o) by {
                if self.env.props.refs().contains(o) {
                    if o != value {
                        assert(old(self).env.props.refs().contains(o));
                        assert(old(self).env.refs().contains(o));
                        assert(old(self).root_refs().contains(o));
                    }
                } else {
                    assert(old(self).root_refs().contains(o));
                }
            }
        }
    }

    /// The value of the property `name` of the symbol `s`, if it has one.
    pub fn prop(&self, s: Symbol, name: Symbol) -> (v: Option<GcObj>)
        requires
            self.wf(),
        ensures
            v == plist_get(self.env.plist(s), name),
            v matches Some(o) ==> self.valid(o),
    {
        let v = self.env.get_prop(s, name);
        proof {
            match v {
                Some(o) => {
                    let pl = self.env.plist(s);
                    let i = crate::env::prop_index(pl, name);
                    crate::env::lemma_prop_index(pl, name);
                    assert(pl[i].refs().contains(o));
                    assert(self.env.props@.contains_key(s.id));
                    assert(self.env.props@[s.id].refs().contains(o));
                    assert(self.env.props.refs().contains(o));
                    assert(self.env.refs().contains(o));
                    assert(self.root_refs().contains(o));
                },
                None => {},
            }
        }
        v
    }

    /// Records a feature as provided.
    pub fn add_feature(&mut self, feature: Symbol)
        requires
            old(self).wf(),
        ensures
            final(self).wf(),
            final(self).same_heap(old(self)),
            final(self).symbols == old(self).symbols,
            final(self).env == old(self).env,
            final(self).features@ == old(self).features@.insert(feature.id),
    {
        broadcast use vstd::std_specs::hash::group_hash_axioms;

        self.features.insert(feature.id);
        proof {
            assert forall|o: GcObj| #[trigger] self.root_refs().contains(o) implies self.valid(o) by {
                assert(old(self).root_refs().contains(o));
            }
        }
    }

    /// Whether a feature was provided.
    pub fn has_feature(&self, feature: Symbol) -> (b: bool)
        ensures
            b == self.features@.contains(feature.id),
    {
        broadcast use vstd::std_specs::hash::group_hash_axioms;

        self.features.contains(&feature.id)
    }
}

} // verus!
