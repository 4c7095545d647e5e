use rune::gc::context::Context;
use rune::gc::root::{Root, RootSet, Rooted};
use rune::gc::trace::{GcState, Trace};
use rune::object::tagged::GcObj;
use std::collections::{HashMap, HashSet, VecDeque};

fn num(i: i64) -> GcObj {
    GcObj::from_int(i).unwrap()
}

#[test]
fn test_trace_root() {
    let roots = RootSet::default();
    let mut cx = Context::new(roots);
    let foo = num(7);
    assert_eq!(cx.roots.len(), 0);
    {
        let root = cx.root(Rooted::Obj(foo));
        assert_eq!(cx.roots.len(), 1);
        assert_eq!(cx.bind(root), foo);
        cx.unroot(root);
    }
    assert_eq!(cx.roots.len(), 0);
}

#[test]
fn roots_are_taken_off_in_reverse_order() {
    let mut cx = Context::new(RootSet::default());
    let a = cx.root(Rooted::Obj(num(1)));
    let b = cx.root(Rooted::Obj(num(2)));
    assert_eq!(a, Root { slot: 0 });
    assert_eq!(b, Root { slot: 1 });
    // out of order: refused, nothing changes
    assert!(cx.try_unroot(a).is_none());
    assert_eq!(cx.roots.len(), 2);
    assert_eq!(cx.bind(a), num(1));
    assert_eq!(cx.bind(b), num(2));
    // in order
    assert!(matches!(cx.try_unroot(b), Some(Rooted::Obj(o)) if o == num(2)));
    assert!(matches!(cx.try_unroot(a), Some(Rooted::Obj(o)) if o == num(1)));
    assert_eq!(cx.roots.len(), 0);
    assert!(cx.try_unroot(a).is_none());
}

#[test]
fn root_set_refuses_a_slot_that_is_not_on_top() {
    let mut roots = RootSet::default();
    let a = roots.register(Rooted::Empty);
    let b = roots.register(Rooted::Objs(vec![num(3), num(4)]));
    assert!(roots.try_deregister(a).is_none());
    assert_eq!(roots.len(), 2);
    assert!(roots.try_deregister(Root { slot: 7 }).is_none());
    assert!(matches!(roots.try_deregister(b), Some(Rooted::Objs(v)) if v == vec![num(3), num(4)]));
    assert!(matches!(roots.deregister(a), Rooted::Empty));
    assert_eq!(roots.len(), 0);
}

#[test]
fn tracing_puts_the_references_on_the_stack() {
    let mut state = GcState::new();
    assert!(state.stack().is_empty());
    7u64.trace(&mut state);
    7usize.trace(&mut state);
    (-7i64).trace(&mut state);
    assert!(state.stack().is_empty());
    state.push(num(1));
    vec![num(2), num(3)].trace(&mut state);
    (num(4), Some(num(5))).trace(&mut state);
    None::<GcObj>.trace(&mut state);
    Rooted::Empty.trace(&mut state);
    [num(6), num(7)].trace(&mut state);
    let stack: Vec<GcObj> = state.stack().iter().map(|r| GcObj::from_raw(*r)).collect();
    assert_eq!(stack, vec![num(1), num(2), num(3), num(4), num(5), num(6), num(7)]);
    assert_eq!(state.pop(), Some(num(7)));
    assert_eq!(state.stack().len(), 6);
}

#[test]
fn tracing_a_root_set_reaches_every_slot() {
    let mut roots = RootSet::default();
    roots.register(Rooted::Obj(num(1)));
    roots.register(Rooted::Empty);
    roots.register(Rooted::Objs(vec![num(2), num(3)]));
    let mut state = GcState::new();
    roots.trace(&mut state);
    let stack: Vec<GcObj> = state.stack().iter().map(|r| GcObj::from_raw(*r)).collect();
    assert_eq!(stack, vec![num(1), num(2), num(3)]);
}

#[test]
fn tracing_collections_reaches_every_item() {
    let mut deque = VecDeque::new();
    deque.push_back(num(2));
    deque.push_front(num(1));
    let mut state = GcState::new();
    deque.trace(&mut state);
    let stack: Vec<GcObj> = state.stack().iter().map(|r| GcObj::from_raw(*r)).collect();
    assert_eq!(stack, vec![num(1), num(2)]);

    let mut map: HashMap<u64, Vec<GcObj>> = HashMap::new();
    map.insert(1, vec![num(3), num(4)]);
    map.insert(2, vec![]);
    map.insert(3, vec![num(5)]);
    let mut state = GcState::new();
    map.trace(&mut state);
    let mut stack: Vec<GcObj> = state.stack().iter().map(|r| GcObj::from_raw(*r)).collect();
    stack.sort_by_key(|o| o.word);
    assert_eq!(stack, vec![num(3), num(4), num(5)]);

    let mut set: HashSet<u64> = HashSet::new();
    set.insert(8);
    let mut state = GcState::new();
    set.trace(&mut state);
    rune::object::tagged::Symbol { id: 1 }.trace(&mut state);
    let slice: &[GcObj] = &[];
    slice.trace(&mut state);
    (&num(1), 5u64).trace(&mut state);
    assert_eq!(state.stack().len(), 1);
}

#[test]
fn tracing_a_context_finds_its_implicit_roots() {
    let mut cx = Context::new(RootSet::default());
    let f = cx.intern("f");
    let x = cx.intern("x");
    let target = cx.intern("target");
    let value = cx.cons(num(1), num(2)).unwrap();
    let prop = cx.cons(num(3), num(4)).unwrap();
    rune::data::fset(f, GcObj::from_symbol(target), &mut cx).unwrap();
    rune::data::set(x, value, &mut cx).unwrap();
    rune::data::put(x, f, prop, &mut cx);
    let mut state = GcState::new();
    cx.symbols.trace(&mut state);
    let stack: Vec<GcObj> = state.stack().iter().map(|r| GcObj::from_raw(*r)).collect();
    assert_eq!(stack, vec![GcObj::from_symbol(target)]);
    let mut state = GcState::new();
    cx.env.trace(&mut state);
    let stack: Vec<GcObj> = state.stack().iter().map(|r| GcObj::from_raw(*r)).collect();
    assert_eq!(stack, vec![value, prop]);
}

#[test]
fn a_map_traces_each_value_once() {
    let mut map: HashMap<u64, GcObj> = HashMap::new();
    for k in 0..100u64 {
        // the same value under many keys
        map.insert(k, num((k % 10) as i64));
    }
    let mut state = GcState::new();
    state.push(num(-1));
    map.trace(&mut state);
    let stack: Vec<GcObj> = state.stack().iter().map(|r| GcObj::from_raw(*r)).collect();
    assert_eq!(stack.len(), 101);
    assert_eq!(stack[0], num(-1));
    for v in 0..10 {
        assert_eq!(stack.iter().filter(|o| **o == num(v)).count(), 10);
    }
}

#[test]
fn ordered_values_are_traced_in_their_order() {
    let mut cx = Context::new(RootSet::default());
    let pair = cx.cons(num(1), num(2)).unwrap();
    let vector = cx.vector(vec![num(3), pair, num(3)]).unwrap();
    let mut state = GcState::new();
    state.push(num(0));
    cx.block.get(pair.as_cons().unwrap()).unwrap().trace(&mut state);
    cx.block.get(vector.as_vec().unwrap()).unwrap().trace(&mut state);
    Vec::<GcObj>::new().trace(&mut state);
    vec![vec![num(4)], vec![], vec![num(5), num(6)]].trace(&mut state);
    let stack: Vec<GcObj> = state.stack().iter().map(|r| GcObj::from_raw(*r)).collect();
    assert_eq!(
        stack,
        vec![num(0), num(1), num(2), num(3), pair, num(3), num(4), num(5), num(6)]
    );
}
