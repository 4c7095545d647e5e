use rune::copy::clone_obj;
use rune::data;
use rune::gc::context::Context;
use rune::gc::root::RootSet;
use rune::object::func::{BuiltIn, CodeVec, FnArgs, LispFn};
use rune::object::tagged::{GcObj, Tag};

fn num(i: i64) -> GcObj {
    GcObj::from_int(i).unwrap()
}

#[test]
fn a_structure_is_copied_into_another_arena() {
    let mut src = Context::new(RootSet::default());
    let mut dst = Context::new(RootSet::default());
    // make the two arenas and symbol tables differ
    dst.intern("first");
    let kept = dst.cons(num(0), num(0)).unwrap();
    let foo = GcObj::from_symbol(src.intern("foo"));
    let text = src.string("héllo".to_string()).unwrap();
    let float = src.float(1.5f64.to_bits()).unwrap();
    let vector = src.vector(vec![num(1), text, foo]).unwrap();
    let list = src.list(&vec![vector, float, GcObj::nil_obj(), num(-7)]).unwrap();
    let before = dst.len();
    let copy = dst.clone_from_context(&src, list).unwrap();
    // one object in the copy for each that was copied
    assert_eq!(dst.len(), before + src.len());
    let items = dst.list_to_vec(copy).unwrap();
    assert_eq!(items.len(), 4);
    assert_eq!(items[2], GcObj::nil_obj());
    assert_eq!(items[3], num(-7));
    assert_eq!(dst.block.float(items[1].as_float().unwrap()).bits, 1.5f64.to_bits());
    let v = dst.block.vector(items[0].as_vec().unwrap());
    assert_eq!(v.len(), 3);
    assert_eq!(v.get(0), Some(num(1)));
    assert_eq!(dst.block.string(v.get(1).unwrap().as_string().unwrap()).text, "héllo");
    let foo_in_dst = v.get(2).unwrap().as_symbol().unwrap();
    assert_eq!(data::symbol_name(foo_in_dst, &dst), "foo");
    assert_ne!(GcObj::from_symbol(foo_in_dst), foo);
    assert_eq!(dst.symbols.lookup("foo"), Some(foo_in_dst));
    // what the arena held is untouched
    assert_eq!(dst.car(kept.as_cons().unwrap()), num(0));
    // and so is what was copied
    assert_eq!(src.list_to_vec(list).unwrap(), vec![vector, float, GcObj::nil_obj(), num(-7)]);
}

#[test]
fn immediates_are_copied_as_they_are() {
    let src = Context::new(RootSet::default());
    let mut dst = Context::new(RootSet::default());
    assert_eq!(clone_obj(&src, num(5), &mut dst, 0), Some(num(5)));
    assert_eq!(clone_obj(&src, GcObj::nil_obj(), &mut dst, 0), Some(GcObj::nil_obj()));
    assert_eq!(clone_obj(&src, GcObj::t_obj(), &mut dst, 0), Some(GcObj::t_obj()));
    assert_eq!(dst.len(), 0);
}

#[test]
fn a_circular_structure_is_not_copied() {
    let mut src = Context::new(RootSet::default());
    let mut dst = Context::new(RootSet::default());
    let x = src.cons(num(1), GcObj::nil_obj()).unwrap();
    src.setcdr(x.as_cons().unwrap(), x);
    assert_eq!(dst.clone_from_context(&src, x), None);
    let deep = src.list(&vec![num(1), num(2), num(3)]).unwrap();
    assert_eq!(clone_obj(&src, deep, &mut dst, 2), None);
    assert!(clone_obj(&src, deep, &mut dst, 3).is_some());
}

#[test]
fn a_function_is_cloned_with_its_constants() {
    let mut src = Context::new(RootSet::default());
    let mut dst = Context::new(RootSet::default());
    let constant = src.list(&vec![num(1), num(2)]).unwrap();
    let name = GcObj::from_symbol(src.intern("name"));
    let args = FnArgs { rest: true, required: 1, optional: 2, advice: false };
    let f = LispFn::new(CodeVec(vec![1, 2, 3]), vec![constant, name, num(9)], args);
    let copy = f.clone_in(&src, &mut dst).unwrap();
    assert!(!copy.is_marked());
    assert_eq!(copy.args, args);
    assert_eq!(copy.body.op_codes.0, vec![1, 2, 3]);
    let consts = copy.body.constants();
    assert_eq!(consts.len(), 3);
    assert_eq!(dst.list_to_vec(consts[0]).unwrap(), vec![num(1), num(2)]);
    assert_eq!(data::symbol_name(consts[1].as_symbol().unwrap(), &dst), "name");
    assert_eq!(consts[2], num(9));
    assert_eq!(dst.len(), 2);
    // as an object of the arena, with a subroutine beside it
    let in_src = src.lisp_fn(f).unwrap();
    let subr = src.subr(BuiltIn::Aref, BuiltIn::Aref.fn_args(), "aref").unwrap();
    let both = src.vector(vec![in_src, subr]).unwrap();
    let copied = dst.clone_from_context(&src, both).unwrap();
    let v = dst.block.vector(copied.as_vec().unwrap());
    assert_eq!(v.get(0).unwrap().tag(), Tag::LispFn);
    assert_eq!(v.get(1).unwrap().tag(), Tag::SubrFn);
    let g = dst.block.lisp_fn(v.get(0).unwrap().as_function().unwrap().into_obj().get().target_ref().unwrap());
    assert_eq!(g.args, args);
    assert_eq!(g.body.op_codes.0, vec![1, 2, 3]);
    let s = dst.block.subr(v.get(1).unwrap().get().target_ref().unwrap());
    assert_eq!(s.subr, BuiltIn::Aref);
    assert_eq!(s.name, "aref");
    assert_eq!(s.args, BuiltIn::Aref.fn_args());
}
