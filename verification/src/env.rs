//! The interned symbols with their function cells, and the environment of
//! variables and property lists.
use crate::gc::trace::{
    lemma_seq_trail_prefix, lemma_trace_first, lemma_trace_next, lemma_traced_then,
    lemma_trailed_then, seq_ordered, seq_refs, seq_trail, traced, trailed, GcState, Trace,
};
use crate::object::tagged::{Function, GcObj, Object, Symbol, PAYLOAD_LIMIT};
use std::collections::HashMap;
use std::collections::HashSet;
use vstd::hash_map::StringHashMap;
use vstd::prelude::*;
use vstd::std_specs::iter::IteratorSpec;
use vstd::string::StringExecFns;

verus! {

impl Trace for Symbol {
    open spec fn refs(&self) -> Set<GcObj> {
        Set::empty()
    }

    open spec fn trail(&self) -> Seq<GcObj> {
        Seq::empty()
    }

    open spec fn ordered(&self) -> bool {
        true
    }

    fn trace(&self, state: &mut GcState) {
        proof {
            crate::gc::trace::lemma_trailed_none(state@);
        }
    }
}

/// The references that leave the values of a map.
pub open spec fn map_refs<V: Trace>(m: Map<u64, V>) -> Set<GcObj> {
    Set::new(|o: GcObj| exists|k: u64| m.contains_key(k) && #[trigger] m[k].refs().contains(o))
}

/// A map in which a key is given a value refers to no more than it did
/// and the value does.
pub proof fn lemma_map_refs_insert<V: Trace>(m: Map<u64, V>, k: u64, v: V)
    ensures
        map_refs(m.insert(k, v)).subset_of(map_refs(m).union(v.refs())),
{
    let n = m.insert(k, v);
    assert forall|o: GcObj| map_refs(n).contains(o) implies map_refs(m).union(v.refs()).contains(
        o,
    ) by {
        let x = choose|x: u64| n.contains_key(x) && #[trigger] n[x].refs().contains(o);
        if x != k {
            assert(m.contains_key(x) && m[x].refs().contains(o));
        }
    }
}

/// A map that loses a key refers to no more than before.
pub proof fn lemma_map_refs_remove<V: Trace>(m: Map<u64, V>, k: u64)
    ensures
        map_refs(m.remove(k)).subset_of(map_refs(m)),
{
    let n = m.remove(k);
    assert forall|o: GcObj| map_refs(n).contains(o) implies map_refs(m).contains(o) by {
        let x = choose|x: u64| n.contains_key(x) && #[trigger] n[x].refs().contains(o);
        assert(m.contains_key(x) && m[x].refs().contains(o));
    }
}

/// The values that a map holds under the keys `ks`, in their order.
pub open spec fn keyed<V>(m: Map<u64, V>, ks: Seq<u64>) -> Seq<V> {
    Seq::new(ks.len(), |i: int| m[ks[i]])
}

/// The members of a finite set, each once, in an order of no
/// significance.
pub open spec fn listing(s: Set<u64>) -> Seq<u64> {
    choose|ks: Seq<u64>| ks.no_duplicates() && ks.to_set() == s
}

/// What tracing the values under the keys `ks` puts on the stack, value
/// by value.
pub open spec fn map_trail<V: Trace>(m: Map<u64, V>, ks: Seq<u64>) -> Seq<GcObj> {
    seq_trail(keyed(m, ks), ks.len() as int)
}

/// Without one of its items, a sequence puts on the stack what it did,
/// less what that item does.
pub proof fn lemma_seq_trail_remove<T: Trace>(s: Seq<T>, j: int)
    requires
        0 <= j < s.len(),
    ensures
        seq_trail(s, s.len() as int).to_multiset() == seq_trail(
            s.remove(j),
            s.len() - 1,
        ).to_multiset().add(s[j].trail().to_multiset()),
    decreases s.len(),
{
    let n = s.len() as int;
    let r = s.remove(j);
    let front = s.drop_last();
    lemma_seq_trail_prefix(s, front, n - 1);
    vstd::seq_lib::lemma_multiset_commutative(seq_trail(s, n - 1), s[n - 1].trail());
    if j == n - 1 {
        assert(r =~= front);
    } else {
        lemma_seq_trail_remove(front, j);
        assert(r.drop_last() =~= front.remove(j));
        lemma_seq_trail_prefix(r, r.drop_last(), n - 2);
        assert(r[n - 2] == s[n - 1]);
        vstd::seq_lib::lemma_multiset_commutative(seq_trail(r, n - 2), s[n - 1].trail());
        assert(seq_trail(s, n).to_multiset() =~= seq_trail(r, n - 1).to_multiset().add(
            s[j].trail().to_multiset(),
        ));
    }
}

/// A sequence without duplicates that loses an item holds what it held
/// but that item.
proof fn lemma_remove_no_dup(s: Seq<u64>, j: int)
    requires
        s.no_duplicates(),
        0 <= j < s.len(),
    ensures
        s.remove(j).no_duplicates(),
        s.remove(j).to_set() == s.to_set().remove(s[j]),
{
    let r = s.remove(j);
    assert forall|p: int, q: int| 0 <= p < r.len() && 0 <= q < r.len() && p != q implies r[p]
        != r[q] by {
        let pp = if p < j {
            p
        } else {
            p + 1
        };
        let qq = if q < j {
            q
        } else {
            q + 1
        };
        assert(r[p] == s[pp] && r[q] == s[qq]);
    }
    assert forall|y: u64| r.to_set().contains(y) <==> s.to_set().remove(s[j]).contains(y) by {
        if r.to_set().contains(y) {
            let p = choose|p: int| 0 <= p < r.len() && r[p] == y;
            let pp = if p < j {
                p
            } else {
                p + 1
            };
            assert(s[pp] == y);
            assert(s.contains(y));
        }
        if s.to_set().remove(s[j]).contains(y) {
            let pp = choose|pp: int| 0 <= pp < s.len() && s[pp] == y;
            let p = if pp < j {
                pp
            } else {
                pp - 1
            };
            assert(r[p] == y);
            assert(r.contains(y));
        }
    }
    assert(r.to_set() =~= s.to_set().remove(s[j]));
}

/// In whichever order the keys of a map are walked, each once, tracing
/// the values puts the same references on the stack, each as often.
pub proof fn lemma_map_trail_any_order<V: Trace>(m: Map<u64, V>, a: Seq<u64>, b: Seq<u64>)
    requires
        a.no_duplicates(),
        b.no_duplicates(),
        a.to_set() == b.to_set(),
    ensures
        map_trail(m, a).to_multiset() == map_trail(m, b).to_multiset(),
    decreases a.len(),
{
    if a.len() == 0 {
        if b.len() > 0 {
            assert(b.contains(b[0]));
            assert(a.to_set().contains(b[0]));
            assert(a.contains(b[0]));
        }
        assert(map_trail(m, a) =~= map_trail(m, b));
    } else {
        let n = a.len() as int;
        let x = a[n - 1];
        assert(a.contains(x));
        assert(b.to_set().contains(x));
        assert(b.contains(x));
        let j = choose|j: int| 0 <= j < b.len() && b[j] == x;
        let front = a.drop_last();
        let rest = b.remove(j);
        assert(front =~= a.remove(n - 1));
        lemma_remove_no_dup(a, n - 1);
        lemma_remove_no_dup(b, j);
        lemma_map_trail_any_order(m, front, rest);
        lemma_seq_trail_remove(keyed(m, a), n - 1);
        lemma_seq_trail_remove(keyed(m, b), j);
        assert(keyed(m, a).remove(n - 1) =~= keyed(m, front));
        assert(keyed(m, b).remove(j) =~= keyed(m, rest));
    }
}

impl<V: Trace> Trace for HashMap<u64, V> {
    open spec fn refs(&self) -> Set<GcObj> {
        map_refs(self@)
    }

    /// What the values put on the stack, one entry after the other, each
    /// entry once.
    open spec fn trail(&self) -> Seq<GcObj> {
        map_trail(self@, listing(self@.dom()))
    }

    /// A hash map is walked in no order that could be told beforehand.
    open spec fn ordered(&self) -> bool {
        false
    }

    fn trace(&self, state: &mut GcState) {
        broadcast use vstd::std_specs::hash::group_hash_axioms;

        let ghost all = vstd::std_specs::hash::spec_keys_iter(self).remaining();
        let ghost ks = Seq::new(all.len(), |i: int| *all[i]);
        let ghost vals = keyed(self@, ks);
        proof {
            vstd::std_specs::hash::axiom_spec_keys_iter(self);
            assert(ks =~= all.unref());
            lemma_trace_first(vals, state@);
        }
        for k in it: self.keys()
            invariant
                it.seq() == all,
                ks == Seq::new(all.len(), |i: int| *all[i]),
                ks.to_set() == self@.dom(),
                vals == keyed(self@, ks),
                traced(old(state)@, state@, seq_refs(vals, it.index())),
                trailed(
                    old(state)@,
                    state@,
                    seq_trail(vals, it.index()),
                    seq_ordered(vals, it.index()),
                ),
        {
            let ghost idx = it.index();
            let ghost before = state@;
            assert(*k == ks[idx]);
            assert(ks.contains(ks[idx]));
            assert(self@.dom().contains(*k));
            k.trace(state);
            assert(state@ =~= before + Seq::<GcObj>::empty());
            match self.get(k) {
                Some(v) => {
                    assert(*v == vals[idx]);
                    v.trace(state);
                },
                None => {},
            }
            proof {
                lemma_trace_next(vals, idx, old(state)@, before, state@);
            }
        }
        proof {
            let n = ks.len() as int;
            assert(all.no_duplicates());
            assert(ks.no_duplicates()) by {
                assert forall|p: int, q: int|
                    0 <= p < ks.len() && 0 <= q < ks.len() && p != q implies ks[p] != ks[q] by {
                    assert(all[p] != all[q]);
                }
            }
            let chosen = listing(self@.dom());
            assert(chosen.no_duplicates() && chosen.to_set() == self@.dom());
            lemma_map_trail_any_order(self@, ks, chosen);
            let l = seq_refs(vals, n);
            let r = map_refs(self@);
            assert forall|o: GcObj| l.contains(o) <==> r.contains(o) by {
                if l.contains(o) {
                    let i = choose|i: int|
                        0 <= i < n && i < vals.len() && #[trigger] vals[i].refs().contains(o);
                    assert(ks.contains(ks[i]));
                    assert(self@.contains_key(ks[i]) && self@[ks[i]].refs().contains(o));
                }
                if r.contains(o) {
                    let k = choose|k: u64|
                        self@.contains_key(k) && #[trigger] self@[k].refs().contains(o);
                    assert(ks.to_set().contains(k));
                    assert(ks.contains(k));
                    let i = choose|i: int| 0 <= i < ks.len() && ks[i] == k;
                    assert(vals[i].refs().contains(o));
                }
            }
            assert(l =~= r);
        }
    }
}

impl Trace for HashSet<u64> {
    open spec fn refs(&self) -> Set<GcObj> {
        Set::empty()
    }

    open spec fn trail(&self) -> Seq<GcObj> {
        Seq::empty()
    }

    open spec fn ordered(&self) -> bool {
        true
    }

    fn trace(&self, state: &mut GcState) {
        proof {
            crate::gc::trace::lemma_trailed_none(state@);
        }
    }
}

/// An interned symbol as the table holds it: its name and its function
/// cell.
pub struct SymbolCell {
    pub name: String,
    /// The function that the symbol names, if any: a byte-compiled
    /// function, a subroutine, or another symbol.
    pub func: Option<GcObj>,
}

impl Trace for SymbolCell {
    open spec fn refs(&self) -> Set<GcObj> {
        self.func.refs()
    }

    open spec fn trail(&self) -> Seq<GcObj> {
        self.func.trail()
    }

    open spec fn ordered(&self) -> bool {
        true
    }

    fn trace(&self, state: &mut GcState) {
        self.func.trace(state);
    }
}

/// The table of interned symbols. A symbol is its place in the table, and
/// no two places hold the same name.
pub struct SymbolMap {
    pub cells: Vec<SymbolCell>,
    /// From a name to the place that holds it.
    pub index: StringHashMap<u64>,
}

impl View for SymbolMap {
    type V = Seq<SymbolCell>;

    open spec fn view(&self) -> Seq<SymbolCell> {
        self.cells@
    }
}

/// Where a chain of function cells ends that starts at `sym`: at the
/// first cell that holds something other than a symbol. There is no end
/// when a cell on the way is empty, or when the chain is longer than
/// `fuel` aliases, as a circular one is.
pub open spec fn resolve(cells: Seq<SymbolCell>, sym: Symbol, fuel: nat) -> Option<Function>
    decreases fuel,
{
    if sym.id >= cells.len() {
        None
    } else {
        match cells[sym.id as int].func {
            None => None,
            Some(g) => match g@ {
                Object::Symbol(next) => if fuel == 0 {
                    None
                } else {
                    resolve(cells, next, (fuel - 1) as nat)
                },
                Object::LispFn(r) => Some(Function::LispFn(r)),
                Object::SubrFn(r) => Some(Function::SubrFn(r)),
                _ => None,
            },
        }
    }
}

/// The symbol that the function cell of `s` holds, if it holds one: the
/// next in a chain of aliases.
pub open spec fn alias_of(cells: Seq<SymbolCell>, s: Symbol) -> Option<Symbol> {
    if s.id < cells.len() {
        match cells[s.id as int].func {
            Some(g) => match g@ {
                Object::Symbol(next) => Some(next),
                _ => None,
            },
            None => None,
        }
    } else {
        None
    }
}

/// Whether the chain of aliases from `s` is longer than `fuel`.
pub open spec fn runs_out(cells: Seq<SymbolCell>, s: Symbol, fuel: nat) -> bool
    decreases fuel,
{
    match alias_of(cells, s) {
        Some(next) => fuel == 0 || runs_out(cells, next, (fuel - 1) as nat),
        None => false,
    }
}

/// The symbol that stands `k` aliases down the chain from `s`, or the
/// last of the chain if it is shorter.
pub open spec fn alias_chain(cells: Seq<SymbolCell>, s: Symbol, k: nat) -> Symbol
    decreases k,
{
    if k == 0 {
        s
    } else {
        match alias_of(cells, s) {
            Some(next) => alias_chain(cells, next, (k - 1) as nat),
            None => s,
        }
    }
}

/// A chain that is not longer than `fuel` resolves to the same with any
/// more fuel; one that is longer resolves to nothing.
proof fn lemma_resolve_fuel(cells: Seq<SymbolCell>, s: Symbol, fuel: nat, more: nat)
    requires
        fuel <= more,
    ensures
        runs_out(cells, s, fuel) ==> resolve(cells, s, fuel) is None,
        !runs_out(cells, s, fuel) ==> resolve(cells, s, more) == resolve(cells, s, fuel)
            && !runs_out(cells, s, more),
    decreases fuel,
{
    match alias_of(cells, s) {
        Some(next) => {
            if fuel > 0 {
                lemma_resolve_fuel(cells, next, (fuel - 1) as nat, (more - 1) as nat);
            }
        },
        None => {},
    }
}

/// Down a chain that is longer than `fuel`, each of the first `fuel`
/// symbols is an alias, and what is left of the chain is longer than
/// what is left of the fuel.
proof fn lemma_runs_out_chain(cells: Seq<SymbolCell>, s: Symbol, fuel: nat, k: nat)
    requires
        runs_out(cells, s, fuel),
        k <= fuel,
    ensures
        alias_of(cells, alias_chain(cells, s, k)) is Some,
        alias_chain(cells, s, k).id < cells.len(),
        runs_out(cells, alias_chain(cells, s, k), (fuel - k) as nat),
    decreases k,
{
    if k > 0 {
        lemma_runs_out_chain(cells, alias_of(cells, s).unwrap(), (fuel - 1) as nat, (k - 1) as nat);
    }
}

/// The chain from step `p` on is the chain of what step `p` leads to.
proof fn lemma_alias_chain_split(cells: Seq<SymbolCell>, s: Symbol, p: nat, k: nat)
    ensures
        alias_chain(cells, s, p + k) == alias_chain(cells, alias_chain(cells, s, p), k),
    decreases p,
{
    if p > 0 {
        match alias_of(cells, s) {
            Some(next) => {
                lemma_alias_chain_split(cells, next, (p - 1) as nat, k);
            },
            None => {
                lemma_alias_chain_stuck(cells, s, k);
            },
        }
    }
}

/// A chain that has ended stays where it is.
proof fn lemma_alias_chain_stuck(cells: Seq<SymbolCell>, s: Symbol, k: nat)
    requires
        alias_of(cells, s) is None,
    ensures
        alias_chain(cells, s, k) == s,
{
}

/// Whether a chain is longer than `m` is, `j` aliases down, whether what
/// is left of it is longer than `m - j`.
proof fn lemma_runs_out_along(cells: Seq<SymbolCell>, s: Symbol, j: nat, m: nat)
    requires
        j <= m,
        forall|i: nat| i < j ==> alias_of(cells, #[trigger] alias_chain(cells, s, i)) is Some,
    ensures
        runs_out(cells, s, m) == runs_out(cells, alias_chain(cells, s, j), (m - j) as nat),
    decreases j,
{
    if j > 0 {
        assert(alias_chain(cells, s, 0) == s);
        let next = alias_of(cells, s).unwrap();
        assert forall|i: nat| i < j - 1 implies alias_of(
            cells,
            #[trigger] alias_chain(cells, next, i),
        ) is Some by {
            assert(alias_chain(cells, s, i + 1) == alias_chain(cells, next, i));
        }
        lemma_runs_out_along(cells, next, (j - 1) as nat, (m - 1) as nat);
    }
}

/// A chain that comes back to where it began is longer than any number.
proof fn lemma_circle_runs_out(cells: Seq<SymbolCell>, x: Symbol, d: nat, m: nat)
    requires
        d >= 1,
        alias_chain(cells, x, d) == x,
        forall|i: nat| i < d ==> alias_of(cells, #[trigger] alias_chain(cells, x, i)) is Some,
    ensures
        runs_out(cells, x, m),
    decreases m,
{
    if m < d {
        lemma_runs_out_along(cells, x, m, m);
    } else {
        lemma_runs_out_along(cells, x, d, m);
        lemma_circle_runs_out(cells, x, d, (m - d) as nat);
    }
}

/// A chain of aliases that is longer than the table has symbols is
/// longer than any number: some symbol comes twice in it.
proof fn lemma_runs_out_forever(cells: Seq<SymbolCell>, s: Symbol, m: nat)
    requires
        runs_out(cells, s, cells.len()),
    ensures
        runs_out(cells, s, m),
{
    let len = cells.len();
    let ids = Seq::new(len + 1, |k: int| alias_chain(cells, s, k as nat).id as int);
    assert forall|k: int| 0 <= k < ids.len() implies 0 <= #[trigger] ids[k] < len by {
        lemma_runs_out_chain(cells, s, len, k as nat);
    }
    if ids.no_duplicates() {
        ids.unique_seq_to_set();
        vstd::set_lib::lemma_int_range(0, len as int);
        assert(ids.to_set().subset_of(vstd::set_lib::set_int_range(0, len as int))) by {
            assert forall|i: int| ids.to_set().contains(i) implies vstd::set_lib::set_int_range(
                0,
                len as int,
            ).contains(i) by {
                let k = choose|k: int| 0 <= k < ids.len() && ids[k] == i;
                assert(0 <= ids[k] < len);
            }
        }
        vstd::set_lib::lemma_len_subset(ids.to_set(), vstd::set_lib::set_int_range(0, len as int));
    } else {
        let (p, q) = choose|p: int, q: int|
            0 <= p < ids.len() && 0 <= q < ids.len() && p != q && ids[p] == ids[q];
        let (lo, hi) = if p < q {
            (p as nat, q as nat)
        } else {
            (q as nat, p as nat)
        };
        let x = alias_chain(cells, s, lo);
        let y = alias_chain(cells, s, hi);
        assert(ids[lo as int] == ids[hi as int]);
        assert(x == y);
        let d = (hi - lo) as nat;
        lemma_alias_chain_split(cells, s, lo, d);
        assert forall|i: nat| i < d implies alias_of(cells, #[trigger] alias_chain(cells, x, i))
            is Some by {
            lemma_alias_chain_split(cells, s, lo, i);
            lemma_runs_out_chain(cells, s, len, lo + i);
        }
        assert forall|i: nat| i < lo implies alias_of(cells, #[trigger] alias_chain(cells, s, i))
            is Some by {
            lemma_runs_out_chain(cells, s, len, i);
        }
        if m < lo {
            lemma_runs_out_along(cells, s, m, m);
            lemma_runs_out_chain(cells, s, len, m);
        } else {
            lemma_runs_out_along(cells, s, lo, m);
            lemma_circle_runs_out(cells, x, d, (m - lo) as nat);
        }
    }
}

/// With as much fuel as the table has symbols, every chain of aliases
/// that ends is followed to its end: more fuel resolves to the same.
pub proof fn lemma_resolve_exact(cells: Seq<SymbolCell>, s: Symbol, more: nat)
    requires
        cells.len() <= more,
    ensures
        resolve(cells, s, more) == resolve(cells, s, cells.len()),
{
    lemma_resolve_fuel(cells, s, cells.len(), more);
    if runs_out(cells, s, cells.len()) {
        lemma_runs_out_forever(cells, s, more);
        lemma_resolve_fuel(cells, s, more, more);
    }
}

impl SymbolMap {
    /// Whether `s` is a symbol of this table.
    pub open spec fn contains(&self, s: Symbol) -> bool {
        s.id < self@.len()
    }

    /// The name of a symbol.
    pub open spec fn name_of(&self, s: Symbol) -> Seq<char> {
        self@[s.id as int].name@
    }

    /// The function cell of a symbol.
    pub open spec fn func_of(&self, s: Symbol) -> Option<Function> {
        match self@[s.id as int].func {
            Some(g) => match g@ {
                Object::Symbol(x) => Some(Function::Symbol(x)),
                Object::LispFn(r) => Some(Function::LispFn(r)),
                Object::SubrFn(r) => Some(Function::SubrFn(r)),
                _ => None,
            },
            None => None,
        }
    }

    /// The invariant of the table: `nil` and `t` stand first, every name
    /// is indexed at its place, the index holds nothing else, and a
    /// function cell holds a function.
    pub open spec fn wf(&self) -> bool {
        &&& 2 <= self@.len() <= PAYLOAD_LIMIT
        &&& self@[0].name@ == "nil"@
        &&& self@[1].name@ == "t"@
        &&& forall|i: int|
            0 <= i < self@.len() ==> self.index@.contains_key((#[trigger] self@[i]).name@)
                && self.index@[self@[i].name@] == i
        &&& forall|n: Seq<char>| #[trigger]
            self.index@.contains_key(n) ==> self.index@[n] < self@.len() && self@[self.index@[n] as int].name@
                == n
        &&& forall|i: int|
            0 <= i < self@.len() ==> ((#[trigger] self@[i]).func matches Some(g)
                ==> Function::is_function(g@))
    }

    /// Whether the table has room for one more symbol.
    pub open spec fn has_room(&self) -> bool {
        self@.len() < PAYLOAD_LIMIT
    }

    /// A table that holds `nil` and `t`.
    pub fn new() -> (m: SymbolMap)
        ensures
            m.wf(),
            m@.len() == 2,
            m@[0].func is None,
            m@[1].func is None,
    {
        proof {
            reveal_strlit("nil");
            reveal_strlit("t");
        }
        let mut cells: Vec<SymbolCell> = Vec::new();
        let mut index: StringHashMap<u64> = StringHashMap::new();
        cells.push(SymbolCell { name: String::from_str("nil"), func: None });
        index.insert(String::from_str("nil"), 0);
        cells.push(SymbolCell { name: String::from_str("t"), func: None });
        index.insert(String::from_str("t"), 1);
        assert("nil"@.len() == 3 && "t"@.len() == 1);
        SymbolMap { cells, index }
    }

    /// The place of a symbol, as an index.
    fn place(&self, s: Symbol) -> (i: usize)
        requires
            self.contains(s),
        ensures
            i == s.id,
    {
        let n = self.cells.len();
        s.id as usize
    }

    /// Number of symbols.
    pub fn len(&self) -> (n: usize)
        ensures
            n == self@.len(),
    {
        self.cells.len()
    }

    /// The symbol of the given name: the one that the table holds, or a
    /// new one at its end.
    pub fn intern(&mut self, name: &str) -> (s: Symbol)
        requires
            old(self).wf(),
            old(self).has_room() || old(self).index@.contains_key(name@),
        ensures
            final(self).wf(),
            final(self).contains(s),
            final(self).name_of(s) == name@,
            forall|x: Symbol|
                old(self).contains(x) && old(self).name_of(x) == name@ ==> s == x,
            old(self).index@.contains_key(name@) ==> final(self)@ == old(self)@,
            !old(self).index@.contains_key(name@) ==> s.id == old(self)@.len() && final(self)@.len()
                == old(self)@.len() + 1 && final(self)@[s.id as int].func is None,
            forall|i: int| 0 <= i < old(self)@.len() ==> final(self)@[i] == old(self)@[i],
    {
        match self.index.get(name) {
            Some(id) => Symbol { id: *id },
            None => {
                let id = self.cells.len() as u64;
                self.cells.push(SymbolCell { name: String::from_str(name), func: None });
                self.index.insert(String::from_str(name), id);
                assert(self.cells.len() == self.cells@.len());
                proof {
                    assert forall|i: int| 0 <= i < self@.len() implies self.index@.contains_key(
                        (#[trigger] self@[i]).name@,
                    ) && self.index@[self@[i].name@] == i by {
                        if i < old(self)@.len() {
                            assert(self@[i] == old(self)@[i]);
                        }
                    }
                    assert forall|n: Seq<char>| #[trigger]
                        self.index@.contains_key(n) implies self.index@[n] < self@.len() && self@[self.index@[n] as int].name@
                        == n by {
                        if n != name@ {
                            assert(old(self).index@.contains_key(n));
                            assert(self@[old(self).index@[n] as int] == old(self)@[old(self).index@[n] as int]);
                        }
                    }
                    assert forall|i: int| 0 <= i < self@.len() implies ((#[trigger] self@[i]).func matches Some(
                        g,
                    ) ==> Function::is_function(g@)) by {
                        if i < old(self)@.len() {
                            assert(self@[i] == old(self)@[i]);
                        }
                    }
                    assert(self@[0] == old(self)@[0]);
                    assert(self@[1] == old(self)@[1]);
                }
                Symbol { id }
            },
        }
    }

    /// The symbol of the given name, if the table holds it.
    pub fn lookup(&self, name: &str) -> (r: Option<Symbol>)
        requires
            self.wf(),
        ensures
            match r {
                Some(s) => self.contains(s) && self.name_of(s) == name@,
                None => forall|x: Symbol| self.contains(x) ==> self.name_of(x) != name@,
            },
    {
        match self.index.get(name) {
            Some(id) => Some(Symbol { id: *id }),
            None => {
                proof {
                    assert forall|x: Symbol| self.contains(x) implies self.name_of(x) != name@ by {
                        assert(self.index@.contains_key(self@[x.id as int].name@));
                    }
                }
                None
            },
        }
    }

    /// The name of a symbol.
    pub fn name(&self, s: Symbol) -> (n: &str)
        requires
            self.contains(s),
        ensures
            n@ == self.name_of(s),
    {
        let i = self.place(s);
        self.cells[i].name.as_str()
    }

    /// Whether the function cell of the symbol holds something.
    pub fn has_func(&self, s: Symbol) -> (b: bool)
        requires
            self.wf(),
            self.contains(s),
        ensures
            b == self.func_of(s) is Some,
    {
        let i = self.place(s);
        self.cells[i].func.is_some()
    }

    /// What the function cell of the symbol holds.
    pub fn func(&self, s: Symbol) -> (f: Option<Function>)
        requires
            self.wf(),
            self.contains(s),
        ensures
            f == self.func_of(s),
            f matches Some(x) ==> self@[s.id as int].func matches Some(g) && g@ == x.as_object()
                && x.as_object().wf(),
    {
        let i = self.place(s);
        match self.cells[i].func {
            Some(g) => {
                proof {
                    crate::object::tagged::lemma_decode_encode(g);
                }
                match g.get() {
                    Object::Symbol(x) => Some(Function::Symbol(x)),
                    Object::LispFn(r) => Some(Function::LispFn(r)),
                    Object::SubrFn(r) => Some(Function::SubrFn(r)),
                    _ => None,
                }
            },
            None => None,
        }
    }

    /// Empties the function cell of the symbol.
    pub fn unbind_func(&mut self, s: Symbol)
        requires
            old(self).wf(),
            old(self).contains(s),
        ensures
            final(self).wf(),
            final(self)@.len() == old(self)@.len(),
            final(self).func_of(s) is None,
            final(self)@[s.id as int].func is None,
            forall|x: Symbol|
                old(self).contains(x) ==> final(self).name_of(x) == old(self).name_of(x),
            forall|i: int|
                0 <= i < old(self)@.len() && i != s.id ==> final(self)@[i] == old(self)@[i],
    {
        let i = self.place(s);
        self.cells[i].func = None;
        proof {
            assert forall|i: int| 0 <= i < self@.len() implies self@[i].name == old(self)@[i].name by {}
            assert forall|n: Seq<char>| #[trigger]
                self.index@.contains_key(n) implies self.index@[n] < self@.len() && self@[self.index@[n] as int].name@
                == n by {
                assert(self@[old(self).index@[n] as int].name == old(self)@[old(
                    self,
                ).index@[n] as int].name);
            }
        }
    }

    /// Puts a function into the function cell of the symbol.
    pub fn set_func(&mut self, s: Symbol, f: Function)
        requires
            old(self).wf(),
            old(self).contains(s),
            f.as_object().wf(),
        ensures
            final(self).wf(),
            final(self)@.len() == old(self)@.len(),
            final(self).func_of(s) == Some(f),
            final(self)@[s.id as int].func matches Some(g) && g@ == f.as_object(),
            forall|x: Symbol|
                old(self).contains(x) ==> final(self).name_of(x) == old(self).name_of(x),
            forall|i: int|
                0 <= i < old(self)@.len() && i != s.id ==> final(self)@[i] == old(self)@[i],
    {
        let g = f.into_obj();
        let i = self.place(s);
        self.cells[i].func = Some(g);
        proof {
            assert forall|i: int| 0 <= i < self@.len() implies self@[i].name == old(self)@[i].name by {}
            assert forall|n: Seq<char>| #[trigger]
                self.index@.contains_key(n) implies self.index@[n] < self@.len() && self@[self.index@[n] as int].name@
                == n by {
                assert(self@[old(self).index@[n] as int].name == old(self)@[old(
                    self,
                ).index@[n] as int].name);
            }
        }
    }

    /// Follows the function cells from symbol to symbol, to the first
    /// that holds a function proper. There is none when a cell on the way
    /// is empty, or when the aliases run in a circle.
    pub fn follow_indirect(&self, s: Symbol) -> (f: Option<Function>)
        requires
            self.wf(),
        ensures
            f == resolve(self@, s, self@.len()),
            f matches Some(x) ==> x.as_object().wf() && exists|i: int|
                0 <= i < self@.len() && (#[trigger] self@[i]).func == Some(x.as_object().encode()),
    {
        let mut cur = s;
        let mut fuel = self.cells.len();
        loop
            invariant
                fuel <= self@.len(),
                resolve(self@, s, self@.len()) == resolve(self@, cur, fuel as nat),
            decreases fuel,
        {
            if cur.id >= self.cells.len() as u64 {
                return None;
            }
            match self.cells[cur.id as usize].func {
                None => {
                    return None;
                },
                Some(g) => match g.get() {
                    Object::Symbol(next) => {
                        if fuel == 0 {
                            return None;
                        }
                        fuel = fuel - 1;
                        cur = next;
                    },
                    Object::LispFn(r) => {
                        proof {
                            crate::object::tagged::lemma_decode_encode(g);
                            assert(self@[cur.id as int].func == Some(g));
                        }
                        return Some(Function::LispFn(r));
                    },
                    Object::SubrFn(r) => {
                        proof {
                            crate::object::tagged::lemma_decode_encode(g);
                            assert(self@[cur.id as int].func == Some(g));
                        }
                        return Some(Function::SubrFn(r));
                    },
                    _ => {
                        return None;
                    },
                },
            }
        }
    }
}

/// No two symbols of a table have the same name.
pub proof fn lemma_symbols_unique(m: SymbolMap, a: Symbol, b: Symbol)
    requires
        m.wf(),
        m.contains(a),
        m.contains(b),
        m.name_of(a) == m.name_of(b),
    ensures
        a == b,
{
    assert(m.index@[m@[a.id as int].name@] == a.id);
    assert(m.index@[m@[b.id as int].name@] == b.id);
}

impl Trace for SymbolMap {
    open spec fn refs(&self) -> Set<GcObj> {
        self.cells.refs()
    }

    /// What the function cells hold, in the order of the table.
    open spec fn trail(&self) -> Seq<GcObj> {
        self.cells.trail()
    }

    open spec fn ordered(&self) -> bool {
        true
    }

    fn trace(&self, state: &mut GcState) {
        self.cells.trace(state);
        assert(self.cells.ordered());
    }
}

/// The first place of a property list that holds the property `name`, or
/// the length of the list if none does.
pub open spec fn prop_index(plist: Seq<(Symbol, GcObj)>, name: Symbol) -> int
    decreases plist.len(),
{
    if plist.len() == 0 {
        0
    } else if plist[0].0 == name {
        0
    } else {
        1 + prop_index(plist.skip(1), name)
    }
}

/// What [`prop_index`] stands for: no place before it holds the property,
/// and it holds the property unless it is the length of the list.
pub proof fn lemma_prop_index(plist: Seq<(Symbol, GcObj)>, name: Symbol)
    ensures
        0 <= prop_index(plist, name) <= plist.len(),
        prop_index(plist, name) < plist.len() ==> plist[prop_index(plist, name)].0 == name,
        forall|k: int| 0 <= k < prop_index(plist, name) ==> (#[trigger] plist[k]).0 != name,
    decreases plist.len(),
{
    if plist.len() > 0 && plist[0].0 != name {
        let rest = plist.skip(1);
        lemma_prop_index(rest, name);
        assert forall|k: int| 0 <= k < prop_index(plist, name) implies (#[trigger] plist[k]).0
            != name by {
            if k > 0 {
                assert(rest[k - 1] == plist[k]);
            }
        }
    }
}

/// The value of the property `name` in a property list, if the list
/// holds it.
pub open spec fn plist_get(plist: Seq<(Symbol, GcObj)>, name: Symbol) -> Option<GcObj> {
    let i = prop_index(plist, name);
    if i < plist.len() {
        Some(plist[i].1)
    } else {
        None
    }
}

/// The property list after the property `name` was given `value`: in
/// place if the list held the property, at the end if not.
pub open spec fn plist_put(plist: Seq<(Symbol, GcObj)>, name: Symbol, value: GcObj) -> Seq<
    (Symbol, GcObj),
> {
    let i = prop_index(plist, name);
    if i < plist.len() {
        plist.update(i, (name, value))
    } else {
        plist.push((name, value))
    }
}

/// The first place of the list that holds the property, or its length.
fn find_prop(plist: &Vec<(Symbol, GcObj)>, name: Symbol) -> (i: usize)
    ensures
        i == prop_index(plist@, name),
{
    let mut i: usize = 0;
    proof {
        lemma_prop_index(plist@, name);
    }
    while i < plist.len() && plist[i].0.id != name.id
        invariant
            i <= plist.len(),
            forall|k: int| 0 <= k < i ==> (#[trigger] plist@[k]).0 != name,
        decreases plist.len() - i,
    {
        i += 1;
    }
    proof {
        let j = prop_index(plist@, name);
        if j < i {
            assert(plist@[j].0 == name);
        }
        if i < j {
            assert(plist@[i as int].0 != name);
        }
    }
    i
}

/// The variables and the property lists of the interpreter, by symbol.
pub struct Env {
    pub vars: HashMap<u64, GcObj>,
    pub props: HashMap<u64, Vec<(Symbol, GcObj)>>,
}

impl Env {
    /// The value of a variable, if it is bound.
    pub open spec fn var(&self, s: Symbol) -> Option<GcObj> {
        if self.vars@.contains_key(s.id) {
            Some(self.vars@[s.id])
        } else {
            None
        }
    }

    /// The property list of a symbol; empty if it has none.
    pub open spec fn plist(&self, s: Symbol) -> Seq<(Symbol, GcObj)> {
        if self.props@.contains_key(s.id) {
            self.props@[s.id]@
        } else {
            Seq::empty()
        }
    }

    /// An environment without variables and properties.
    pub fn new() -> (e: Env)
        ensures
            forall|s: Symbol| e.var(s) is None,
            forall|s: Symbol| e.plist(s) == Seq::<(Symbol, GcObj)>::empty(),
            e.vars@ == Map::<u64, GcObj>::empty(),
            e.props@ == Map::<u64, Vec<(Symbol, GcObj)>>::empty(),
    {
        Env { vars: HashMap::new(), props: HashMap::new() }
    }

    /// Binds a variable.
    pub fn set_var(&mut self, s: Symbol, value: GcObj)
        ensures
            final(self).vars@ == old(self).vars@.insert(s.id, value),
            final(self).props == old(self).props,
            final(self).var(s) == Some(value),
            forall|x: Symbol| x != s ==> final(self).var(x) == old(self).var(x),
    {
        broadcast use vstd::std_specs::hash::group_hash_axioms;

        self.vars.insert(s.id, value);
    }

    /// The value of a variable, if it is bound.
    pub fn get_var(&self, s: Symbol) -> (v: Option<GcObj>)
        ensures
            v == self.var(s),
    {
        broadcast use vstd::std_specs::hash::group_hash_axioms;

        match self.vars.get(&s.id) {
            Some(v) => Some(*v),
            None => None,
        }
    }

    /// Unbinds a variable.
    pub fn unset_var(&mut self, s: Symbol)
        ensures
            final(self).vars@ == old(self).vars@.remove(s.id),
            final(self).props == old(self).props,
            final(self).var(s) is None,
            forall|x: Symbol| x != s ==> final(self).var(x) == old(self).var(x),
    {
        broadcast use vstd::std_specs::hash::group_hash_axioms;

        self.vars.remove(&s.id);
    }

    /// Gives the property `name` of the symbol `s` the value `value`.
    pub fn set_prop(&mut self, s: Symbol, name: Symbol, value: GcObj)
        ensures
            final(self).vars == old(self).vars,
            final(self).plist(s) == plist_put(old(self).plist(s), name, value),
            forall|x: Symbol| x != s ==> final(self).plist(x) == old(self).plist(x),
            final(self).props@.dom() == old(self).props@.dom().insert(s.id),
    {
        broadcast use vstd::std_specs::hash::group_hash_axioms;

        let mut plist = match self.props.remove(&s.id) {
            Some(p) => p,
            None => Vec::new(),
        };
        assert(plist@ == old(self).plist(s));
        let i = find_prop(&plist, name);
        if i < plist.len() {
            plist[i] = (name, value);
        } else {
            plist.push((name, value));
        }
        self.props.insert(s.id, plist);
        proof {
            assert(self.props@.dom() =~= old(self).props@.dom().insert(s.id));
        }
    }

    /// The value of the property `name` of the symbol `s`, if it has one.
    pub fn get_prop(&self, s: Symbol, name: Symbol) -> (v: Option<GcObj>)
        ensures
            v == plist_get(self.plist(s), name),
    {
        broadcast use vstd::std_specs::hash::group_hash_axioms;

        match self.props.get(&s.id) {
            Some(plist) => {
                let i = find_prop(plist, name);
                if i < plist.len() {
                    Some(plist[i].1)
                } else {
                    None
                }
            },
            None => None,
        }
    }
}

impl Trace for Env {
    open spec fn refs(&self) -> Set<GcObj> {
        self.vars.refs().union(self.props.refs())
    }

    /// The values of the variables, then those of the properties.
    open spec fn trail(&self) -> Seq<GcObj> {
        self.vars.trail() + self.props.trail()
    }

    open spec fn ordered(&self) -> bool {
        false
    }

    fn trace(&self, state: &mut GcState) {
        self.vars.trace(state);
        let ghost mid = state@;
        self.props.trace(state);
        proof {
            lemma_traced_then(old(state)@, mid, state@, self.vars.refs(), self.props.refs());
            lemma_trailed_then(
                old(state)@,
                mid,
                state@,
                self.vars.trail(),
                false,
                self.props.trail(),
                false,
            );
        }
    }
}

} // verus!
