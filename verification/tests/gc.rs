use rune::gc::context::{Context, MIN_THRESHOLD};
use rune::gc::heap::Block;
use rune::gc::root::{RootSet, Rooted};
use rune::gc::trace::GcState;
use rune::object::boxed::{HeapObject, LispFloat};
use rune::object::cons::Cons;
use rune::object::func::{CodeVec, FnArgs, LispFn};
use rune::object::tagged::{GcObj, Object, ObjRef};

fn num(i: i64) -> GcObj {
    GcObj::from_int(i).unwrap()
}

fn cons_ref(o: GcObj) -> ObjRef {
    o.as_cons().unwrap()
}

#[test]
fn unrooted_cons_cells_are_all_freed() {
    let mut cx = Context::new(RootSet::default());
    let baseline = cx.len();
    assert_eq!(baseline, 0);
    for i in 0..1000 {
        cx.cons(num(i), GcObj::nil_obj()).unwrap();
    }
    assert_eq!(cx.len(), 1000);
    cx.garbage_collect();
    assert_eq!(cx.len(), baseline);
    // the slots are handed out again
    let capacity = cx.block.capacity();
    for i in 0..1000 {
        cx.cons(num(i), GcObj::nil_obj()).unwrap();
    }
    assert_eq!(cx.block.capacity(), capacity);
    assert_eq!(cx.len(), 1000);
}

#[test]
fn a_rooted_list_survives_a_collection() {
    let mut cx = Context::new(RootSet::default());
    let x = cx.list(&vec![num(1), num(2), num(3)]).unwrap();
    let garbage = cx.list(&vec![num(4), num(5)]).unwrap();
    assert_eq!(cx.len(), 5);
    let root = cx.root(Rooted::Obj(x));
    cx.garbage_collect();
    assert_eq!(cx.len(), 3);
    let x = cx.bind(root);
    assert_eq!(cx.list_to_vec(x).unwrap(), vec![num(1), num(2), num(3)]);
    assert!(cx.block.get(cons_ref(garbage)).is_none());
    cx.unroot(root);
    cx.garbage_collect();
    assert_eq!(cx.len(), 0);
}

#[test]
fn a_rooted_value_is_the_same_object_after_a_collection() {
    let mut cx = Context::new(RootSet::default());
    let before_garbage = cx.cons(num(0), num(0)).unwrap();
    let inner = cx.cons(num(1), num(2)).unwrap();
    let outer = cx.cons(inner, num(3)).unwrap();
    let root = cx.root(Rooted::Obj(outer));
    cx.garbage_collect();
    assert_eq!(cx.bind(root), outer);
    assert_eq!(cx.car(cons_ref(outer)), inner);
    assert_eq!(cx.cdr(cons_ref(outer)), num(3));
    assert_eq!(cx.car(cons_ref(inner)), num(1));
    assert_eq!(cx.cdr(cons_ref(inner)), num(2));
    assert!(cx.block.get(cons_ref(before_garbage)).is_none());
    assert_eq!(cx.len(), 2);
}

#[test]
fn a_circular_list_is_collected_in_finite_time() {
    let mut cx = Context::new(RootSet::default());
    let x = cx.cons(num(1), GcObj::nil_obj()).unwrap();
    cx.setcdr(cons_ref(x), x);
    let y = cx.cons(num(2), GcObj::nil_obj()).unwrap();
    cx.setcar(cons_ref(y), y);
    let root = cx.root(Rooted::Obj(x));
    cx.garbage_collect();
    assert_eq!(cx.len(), 1);
    let x = cx.bind(root);
    assert_eq!(cx.car(cons_ref(x)), num(1));
    assert_eq!(cx.cdr(cons_ref(x)), x);
    cx.unroot(root);
    cx.garbage_collect();
    assert_eq!(cx.len(), 0);
}

#[test]
fn nothing_is_marked_after_a_collection() {
    let mut cx = Context::new(RootSet::default());
    let a = cx.cons(num(1), num(2)).unwrap();
    let v = cx.vector(vec![a, num(3)]).unwrap();
    let f = cx.float(1.5f64.to_bits()).unwrap();
    let root = cx.root(Rooted::Objs(vec![v, f]));
    cx.garbage_collect();
    assert_eq!(cx.len(), 3);
    for slot in cx.block.slots.iter() {
        if let Some(obj) = slot {
            assert!(!obj.is_marked());
        }
    }
    cx.unroot(root);
}

#[test]
fn stale_marks_neither_keep_garbage_nor_hide_children() {
    let mut cx = Context::new(RootSet::default());
    let child = cx.cons(num(1), num(2)).unwrap();
    let parent = cx.cons(child, num(3)).unwrap();
    let garbage = cx.cons(num(4), num(5)).unwrap();
    // leave marks behind, as a faulty earlier phase might
    for r in [parent, garbage] {
        if let Some(obj) = cx.block.slots[cons_ref(r).idx as usize].as_mut() {
            let mut state = GcState::new();
            obj.mark(&mut state);
            assert!(obj.is_marked());
        }
    }
    let root = cx.root(Rooted::Obj(parent));
    cx.garbage_collect();
    assert_eq!(cx.len(), 2);
    assert!(cx.block.get(cons_ref(garbage)).is_none());
    assert!(cx.block.get(cons_ref(child)).is_some());
    assert_eq!(cx.car(cons_ref(child)), num(1));
    assert!(!cx.block.get(cons_ref(parent)).unwrap().is_marked());
    cx.unroot(root);
}

#[test]
fn what_symbols_and_variables_refer_to_survives() {
    let mut cx = Context::new(RootSet::default());
    let f = cx.intern("f");
    let v = cx.intern("v");
    let p = cx.intern("p");
    let body = cx.cons(num(1), num(2)).unwrap();
    let func = cx
        .lisp_fn(LispFn::new(
            CodeVec(vec![1, 2, 3]),
            vec![body],
            FnArgs { rest: false, required: 0, optional: 0, advice: false },
        ))
        .unwrap();
    let value = cx.cons(num(3), num(4)).unwrap();
    let prop = cx.cons(num(5), num(6)).unwrap();
    let garbage = cx.cons(num(7), num(8)).unwrap();
    rune::data::fset(f, func, &mut cx).unwrap();
    rune::data::set(v, value, &mut cx).unwrap();
    rune::data::put(v, p, prop, &mut cx);
    cx.garbage_collect();
    assert_eq!(cx.len(), 4);
    assert!(cx.block.get(cons_ref(garbage)).is_none());
    assert_eq!(rune::data::symbol_function(f, &cx), func);
    assert_eq!(cx.car(cons_ref(body)), num(1));
    assert_eq!(rune::data::symbol_value(v, &cx), Some(value));
    assert_eq!(cx.car(cons_ref(value)), num(3));
    assert_eq!(rune::data::get(v, p, &cx), prop);
    assert_eq!(cx.cdr(cons_ref(prop)), num(6));
}

#[test]
fn an_allocation_collects_when_the_threshold_is_reached() {
    let mut cx = Context::new(RootSet::default());
    assert_eq!(cx.threshold, MIN_THRESHOLD);
    let kept = cx.cons(num(1), num(2)).unwrap();
    let root = cx.root(Rooted::Obj(kept));
    for i in 0..(MIN_THRESHOLD as i64 - 1) {
        cx.cons(num(i), GcObj::nil_obj()).unwrap();
    }
    assert_eq!(cx.len(), MIN_THRESHOLD);
    // this allocation finds the threshold reached: it collects, keeps what
    // is rooted and what the new object refers to, and then allocates
    let tail = cx.cons(num(10), num(11)).unwrap();
    assert_eq!(cx.len(), 2);
    let fresh = cx.cons(num(12), tail).unwrap();
    assert_eq!(cx.len(), 3);
    assert_eq!(cx.cdr(cons_ref(fresh)), tail);
    assert_eq!(cx.car(cons_ref(tail)), num(10));
    assert_eq!(cx.car(cons_ref(cx.bind(root))), num(1));
    assert_eq!(cx.threshold, MIN_THRESHOLD);
}

#[test]
fn the_threshold_doubles_with_what_survives() {
    let mut cx = Context::new(RootSet::default());
    let mut items = Vec::new();
    for i in 0..700 {
        items.push(num(i));
    }
    let list = cx.list(&items).unwrap();
    let root = cx.root(Rooted::Obj(list));
    cx.garbage_collect();
    assert_eq!(cx.len(), 700);
    assert_eq!(cx.threshold, 1400);
    cx.unroot(root);
    cx.garbage_collect();
    assert_eq!(cx.len(), 0);
    assert_eq!(cx.threshold, MIN_THRESHOLD);
}

#[test]
fn add_now_never_collects() {
    let mut cx = Context::new(RootSet::default());
    for i in 0..(2 * MIN_THRESHOLD as i64) {
        cx.add_now(HeapObject::Cons(Cons::new(num(i), num(i)))).unwrap();
    }
    assert_eq!(cx.len(), 2 * MIN_THRESHOLD);
}

#[test]
fn a_block_marks_and_sweeps_from_a_work_stack() {
    let mut block = Block::new();
    let a = block.insert(HeapObject::Float(LispFloat::new(1))).unwrap();
    let b = block.insert(HeapObject::Cons(Cons::new(Object::Float(a).into_obj(), num(0)))).unwrap();
    let c = block.insert(HeapObject::Float(LispFloat::new(2))).unwrap();
    assert_eq!((a.idx, b.idx, c.idx), (0, 1, 2));
    assert_eq!(block.len(), 3);
    let mut state = GcState::new();
    state.push(Object::Cons(b).into_obj());
    state.push(num(5));
    state.push(Object::Cons(ObjRef { idx: 99 }).into_obj());
    block.mark_from(&mut state);
    assert!(state.stack().is_empty());
    assert!(block.get(a).unwrap().is_marked());
    assert!(block.get(b).unwrap().is_marked());
    assert!(!block.get(c).unwrap().is_marked());
    block.sweep();
    assert_eq!(block.len(), 2);
    assert!(block.get(c).is_none());
    assert!(!block.get(a).unwrap().is_marked());
    assert!(!block.get(b).unwrap().is_marked());
    assert_eq!(block.free, vec![2]);
    // the freed slot is the next to be filled
    let d = block.insert(HeapObject::Float(LispFloat::new(3))).unwrap();
    assert_eq!(d.idx, 2);
    block.unmark_all();
    let mut state = GcState::new();
    block.collect(&mut state);
    assert_eq!(block.len(), 0);
    assert_eq!(block.capacity(), 3);
    assert_eq!(block.free, vec![0, 1, 2]);
}

#[test]
fn a_lisp_function_is_marked_with_its_constants() {
    let mut f = LispFn::new(
        CodeVec(vec![0, 1]),
        vec![num(1), Object::Cons(ObjRef { idx: 4 }).into_obj()],
        FnArgs { rest: false, required: 1, optional: 0, advice: false },
    );
    assert!(!f.is_marked());
    let mut state = GcState::new();
    f.mark(&mut state);
    assert!(f.is_marked());
    assert_eq!(state.stack().len(), 2);
    assert_eq!(state.pop(), Some(Object::Cons(ObjRef { idx: 4 }).into_obj()));
    f.unmark();
    assert!(!f.is_marked());
    assert_eq!(f.body.constants().len(), 2);
    assert_eq!(f.body.op_codes.0, vec![0, 1]);
}

#[test]
fn a_reference_to_a_freed_object_is_not_valid() {
    let mut cx = Context::new(RootSet::default());
    let kept = cx.cons(num(1), num(2)).unwrap();
    let lost = cx.vector(vec![num(3)]).unwrap();
    let root = cx.root(Rooted::Obj(kept));
    assert!(cx.is_valid(kept));
    assert!(cx.is_valid(lost));
    cx.garbage_collect();
    assert!(cx.is_valid(kept));
    assert!(!cx.is_valid(lost));
    // the slot is filled again, by an object of another variant
    let next = cx.cons(num(4), num(5)).unwrap();
    assert_eq!(next.as_cons().unwrap().idx, lost.as_vec().unwrap().idx);
    assert!(!cx.is_valid(lost));
    assert!(cx.is_valid(next));
    assert!(cx.is_valid(num(7)));
    assert!(cx.is_valid(GcObj::nil_obj()));
    assert!(!cx.is_valid(GcObj::from_symbol(rune::object::tagged::Symbol { id: 99 })));
    assert!(!cx.is_valid(Object::Cons(ObjRef { idx: 1000 }).into_obj()));
    cx.unroot(root);
}

#[test]
fn building_a_list_keeps_what_the_roots_reach() {
    let mut cx = Context::new(RootSet::default());
    let text = cx.string("kept".to_string()).unwrap();
    let pair = cx.cons(text, num(1)).unwrap();
    let lost = cx.string("lost".to_string()).unwrap();
    let item = cx.vector(vec![num(7)]).unwrap();
    let root = cx.root(Rooted::Obj(pair));
    // every allocation collects first
    cx.threshold = 0;
    let list = cx.list(&vec![item, num(2), item]).unwrap();
    assert_eq!(cx.bind(root), pair);
    assert_eq!(cx.car(cons_ref(pair)), text);
    assert_eq!(cx.block.string(text.as_string().unwrap()).text, "kept");
    assert_eq!(cx.block.vector(item.as_vec().unwrap()).items, vec![num(7)]);
    assert_eq!(cx.list_to_vec(list).unwrap(), vec![item, num(2), item]);
    assert!(!cx.is_valid(lost));
    assert_eq!(cx.len(), 3 + 3);
    cx.unroot(root);
}
