use rune::error::{Error, Type, TypeError};
use rune::gc::mark::GcMark;
use rune::object::func::FnArgs;
use rune::object::tagged::{Function, GcObj, Object, ObjRef, Symbol, Tag, INT_MAX, INT_MIN};

#[test]
fn integers_round_trip_through_a_word() {
    for i in [0i64, 1, -1, 42, -42, 233, INT_MAX, INT_MIN, INT_MAX - 1, INT_MIN + 1] {
        let g = GcObj::from_int(i).unwrap();
        assert_eq!(g.get(), Object::Int(i));
        assert_eq!(g.tag(), Tag::Int);
        assert_eq!(g.as_int().unwrap(), i);
    }
}

#[test]
fn integers_that_do_not_fit_are_refused() {
    assert!(GcObj::from_int(INT_MAX + 1).is_none());
    assert!(GcObj::from_int(INT_MIN - 1).is_none());
    assert!(GcObj::from_int(i64::MAX).is_none());
    assert!(GcObj::from_int(i64::MIN).is_none());
}

#[test]
fn references_round_trip_through_a_word() {
    let r = ObjRef { idx: 12345 };
    let cases = [
        (Object::Float(r), Tag::Float),
        (Object::String(r), Tag::String),
        (Object::Cons(r), Tag::Cons),
        (Object::Vec(r), Tag::Vec),
        (Object::LispFn(r), Tag::LispFn),
        (Object::SubrFn(r), Tag::SubrFn),
        (Object::Symbol(Symbol { id: 77 }), Tag::Symbol),
    ];
    for (o, tag) in cases {
        let g = o.into_obj();
        assert_eq!(g.get(), o);
        assert_eq!(g.tag(), tag);
        assert_eq!(o.tag(), tag);
        assert_eq!(GcObj::from_raw(g.into_raw()), g);
    }
    assert_eq!(Object::Cons(r).target_ref(), Some(r));
    assert_eq!(Object::Int(3).target_ref(), None);
    assert_eq!(Object::Symbol(Symbol { id: 3 }).target_ref(), None);
}

#[test]
fn the_tag_is_in_the_low_bits() {
    assert_eq!(GcObj::from_int(0).unwrap().word, 0);
    assert_eq!(GcObj::from_int(1).unwrap().word, 8);
    assert_eq!(GcObj::from_int(-1).unwrap().word, 0xffff_ffff_ffff_fff8);
    assert_eq!(Object::Cons(ObjRef { idx: 2 }).into_obj().word, 2 * 8 + 4);
    assert_eq!(GcObj { word: 5 * 8 + 7 }.get(), Object::SubrFn(ObjRef { idx: 5 }));
}

#[test]
fn nil_is_one_comparison() {
    let nil = GcObj::nil_obj();
    assert_eq!(nil.word, 2);
    assert!(nil.nil());
    assert_eq!(nil.get(), Object::Symbol(Symbol { id: 0 }));
    assert!(!GcObj::t_obj().nil());
    assert_eq!(GcObj::t_obj().get(), Object::Symbol(Symbol { id: 1 }));
    assert_eq!(GcObj::from_bool(true), GcObj::t_obj());
    assert_eq!(GcObj::from_bool(false), nil);
    assert!(!GcObj::from_int(0).unwrap().nil());
    assert_eq!(GcObj::from_symbol(Symbol { id: 0 }), nil);
}

#[test]
fn ptr_eq_is_equality_of_words() {
    let a = GcObj::from_int(5).unwrap();
    let b = GcObj::from_int(5).unwrap();
    let c = GcObj::from_int(6).unwrap();
    assert!(a.ptr_eq(b));
    assert!(!a.ptr_eq(c));
    let x = Object::Cons(ObjRef { idx: 1 }).into_obj();
    let y = Object::Vec(ObjRef { idx: 1 }).into_obj();
    assert!(x.ptr_eq(x));
    assert!(!x.ptr_eq(y));
}

#[test]
fn a_wrong_variant_is_a_type_error() {
    let i = GcObj::from_int(5).unwrap();
    let s = GcObj::from_symbol(Symbol { id: 3 });
    let c = Object::Cons(ObjRef { idx: 1 }).into_obj();
    assert!(matches!(
        s.as_int(),
        Err(Error::Type(TypeError { expected: Type::Int, found: Tag::Symbol }))
    ));
    assert!(matches!(
        i.as_symbol(),
        Err(Error::Type(TypeError { expected: Type::Symbol, found: Tag::Int }))
    ));
    assert!(matches!(
        i.as_cons(),
        Err(Error::Type(TypeError { expected: Type::Cons, found: Tag::Int }))
    ));
    assert!(matches!(
        c.as_vec(),
        Err(Error::Type(TypeError { expected: Type::Vec, found: Tag::Cons }))
    ));
    assert!(matches!(
        c.as_string(),
        Err(Error::Type(TypeError { expected: Type::String, found: Tag::Cons }))
    ));
    assert!(matches!(
        c.as_float(),
        Err(Error::Type(TypeError { expected: Type::Float, found: Tag::Cons }))
    ));
    assert!(matches!(
        c.as_function(),
        Err(Error::Type(TypeError { expected: Type::Func, found: Tag::Cons }))
    ));
    assert_eq!(c.as_cons().unwrap(), ObjRef { idx: 1 });
    assert_eq!(s.as_symbol().unwrap(), Symbol { id: 3 });
    assert_eq!(s.as_function().unwrap(), Function::Symbol(Symbol { id: 3 }));
    assert_eq!(
        Object::LispFn(ObjRef { idx: 9 }).into_obj().as_function().unwrap(),
        Function::LispFn(ObjRef { idx: 9 })
    );
    assert_eq!(Function::SubrFn(ObjRef { idx: 4 }).into_obj().get(), Object::SubrFn(ObjRef { idx: 4 }));
}

#[test]
fn the_mark_word_keeps_the_other_bits() {
    let mut m = GcMark::new();
    assert!(!m.is_marked());
    m.mark();
    assert!(m.is_marked());
    assert_eq!(m.bits, 1);
    m.mark();
    assert_eq!(m.bits, 1);
    m.unmark();
    assert!(!m.is_marked());
    assert_eq!(m.bits, 0);
    let mut meta = GcMark { bits: 0b1010_1010 };
    assert!(!meta.is_marked());
    meta.mark();
    assert_eq!(meta.bits, 0b1010_1011);
    assert!(meta.is_marked());
    meta.unmark();
    assert_eq!(meta.bits, 0b1010_1010);
}

fn arg_error(r: Result<u16, Error>) -> (usize, usize, String) {
    match r {
        Err(Error::Arg(e)) => (e.expected, e.actual, e.name),
        other => panic!("no arity error: {:?}", other),
    }
}

#[test]
fn fill_args_pads_up_to_the_positional_parameters() {
    let spec = FnArgs { rest: false, required: 3, optional: 2, advice: false };
    assert_eq!(spec.num_of_fill_args(4, "f").unwrap(), 1);
    assert_eq!(spec.num_of_fill_args(3, "f").unwrap(), 2);
    assert_eq!(spec.num_of_fill_args(5, "f").unwrap(), 0);
    assert_eq!(arg_error(spec.num_of_fill_args(2, "f")), (3, 2, "f".to_string()));
    assert_eq!(arg_error(spec.num_of_fill_args(6, "f")), (5, 6, "f".to_string()));
    assert_eq!(arg_error(spec.num_of_fill_args(0, "name")), (3, 0, "name".to_string()));
}

#[test]
fn fill_args_with_rest_takes_any_surplus() {
    let spec = FnArgs { rest: true, required: 1, optional: 1, advice: false };
    assert_eq!(spec.num_of_fill_args(1, "f").unwrap(), 1);
    assert_eq!(spec.num_of_fill_args(2, "f").unwrap(), 0);
    assert_eq!(spec.num_of_fill_args(3, "f").unwrap(), 0);
    assert_eq!(spec.num_of_fill_args(u16::MAX, "f").unwrap(), 0);
    assert_eq!(arg_error(spec.num_of_fill_args(0, "f")), (1, 0, "f".to_string()));
}

#[test]
fn fill_args_does_not_overflow() {
    let spec = FnArgs { rest: false, required: u16::MAX, optional: u16::MAX, advice: false };
    assert_eq!(spec.num_of_fill_args(u16::MAX, "f").unwrap(), u16::MAX);
    assert_eq!(arg_error(spec.num_of_fill_args(7, "f")), (65535, 7, "f".to_string()));
    let none = FnArgs { rest: false, required: 0, optional: 0, advice: false };
    assert_eq!(none.num_of_fill_args(0, "f").unwrap(), 0);
    assert_eq!(arg_error(none.num_of_fill_args(1, "f")), (0, 1, "f".to_string()));
}

#[test]
fn too_many_arguments_for_two_required_and_one_optional() {
    let spec = FnArgs { rest: false, required: 2, optional: 1, advice: false };
    assert_eq!(arg_error(spec.num_of_fill_args(4, "f")), (3, 4, "f".to_string()));
}
