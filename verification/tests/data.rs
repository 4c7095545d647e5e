use rune::data;
use rune::error::{Error, Type, TypeError};
use rune::gc::context::Context;
use rune::gc::root::RootSet;
use rune::object::func::{BuiltIn, CodeVec, FnArgs, LispFn, SubrFn};
use rune::object::tagged::{GcObj, Object, ObjRef, Symbol, Tag};

fn num(i: i64) -> GcObj {
    GcObj::from_int(i).unwrap()
}

fn sym(s: Symbol) -> GcObj {
    GcObj::from_symbol(s)
}

fn context() -> Context {
    Context::new(RootSet::default())
}

fn no_args() -> FnArgs {
    FnArgs { rest: false, required: 0, optional: 0, advice: false }
}

#[test]
fn a_symbol_is_the_one_of_its_name() {
    let mut cx = context();
    let foo = cx.intern("foo");
    let bar = cx.intern("bar");
    let again = cx.intern("foo");
    assert!(data::eq(sym(foo), sym(again)));
    assert_eq!(foo, again);
    assert_ne!(foo, bar);
    assert_eq!(data::symbol_name(foo, &cx), "foo");
    assert_eq!(data::symbol_name(bar, &cx), "bar");
    assert_eq!(cx.symbols.len(), 4);
    assert_eq!(cx.symbols.lookup("foo"), Some(foo));
    assert_eq!(cx.symbols.lookup("baz"), None);
}

#[test]
fn nil_and_t_are_interned_first() {
    let mut cx = context();
    assert_eq!(cx.intern("nil"), Symbol { id: 0 });
    assert_eq!(cx.intern("t"), Symbol { id: 1 });
    assert_eq!(sym(cx.intern("nil")), GcObj::nil_obj());
    assert_eq!(sym(cx.intern("t")), GcObj::t_obj());
    assert_eq!(data::symbol_name(Symbol { id: 0 }, &cx), "nil");
    assert!(data::null(GcObj::nil_obj()));
    assert!(!data::null(GcObj::t_obj()));
    assert!(!data::null(num(0)));
}

#[test]
fn eq_is_identity() {
    let mut cx = context();
    let a = cx.cons(num(1), num(2)).unwrap();
    let b = cx.cons(num(1), num(2)).unwrap();
    assert!(data::eq(a, a));
    assert!(!data::eq(a, b));
    assert!(data::eq(num(3), num(3)));
    assert!(!data::eq(num(3), num(4)));
}

#[test]
fn eql_compares_floats_by_their_bits() {
    let mut cx = context();
    let zero = cx.float(0.0f64.to_bits()).unwrap();
    let minus_zero = cx.float((-0.0f64).to_bits()).unwrap();
    let other_zero = cx.float(0.0f64.to_bits()).unwrap();
    let nan = cx.float(f64::NAN.to_bits()).unwrap();
    let other_nan = cx.float(f64::NAN.to_bits()).unwrap();
    assert!(!data::eql(zero, minus_zero, &cx));
    assert!(data::eql(zero, other_zero, &cx));
    assert!(!data::eq(zero, other_zero));
    assert!(data::eql(nan, other_nan, &cx));
    assert!(data::eql(num(1), num(1), &cx));
    assert!(!data::eql(num(1), zero, &cx));
    let a = cx.cons(num(1), num(2)).unwrap();
    let b = cx.cons(num(1), num(2)).unwrap();
    assert!(!data::eql(a, b, &cx));
    assert!(data::eql(a, a, &cx));
    assert!(data::equal(zero, other_zero, &cx));
    assert!(!data::equal(zero, minus_zero, &cx));
}

#[test]
fn equal_is_structural() {
    let mut cx = context();
    let a = cx.list(&vec![num(1), num(2), num(3)]).unwrap();
    let b = cx.list(&vec![num(1), num(2), num(3)]).unwrap();
    let c = cx.list(&vec![num(1), num(2), num(4)]).unwrap();
    let short = cx.list(&vec![num(1), num(2)]).unwrap();
    assert!(data::equal(a, b, &cx));
    assert!(data::equal(b, a, &cx));
    assert!(data::equal(a, a, &cx));
    assert!(!data::equal(a, c, &cx));
    assert!(!data::equal(a, short, &cx));
    assert!(!data::equal(short, a, &cx));
    let s1 = cx.string("héllo".to_string()).unwrap();
    let s2 = cx.string("héllo".to_string()).unwrap();
    let s3 = cx.string("hello".to_string()).unwrap();
    assert!(data::equal(s1, s2, &cx));
    assert!(!data::equal(s1, s3, &cx));
    let v1 = cx.vector(vec![a, s1, num(7)]).unwrap();
    let v2 = cx.vector(vec![b, s2, num(7)]).unwrap();
    let v3 = cx.vector(vec![b, s3, num(7)]).unwrap();
    let v4 = cx.vector(vec![b, s2]).unwrap();
    assert!(data::equal(v1, v2, &cx));
    assert!(!data::equal(v1, v3, &cx));
    assert!(!data::equal(v1, v4, &cx));
    assert!(!data::equal(v1, a, &cx));
    assert!(!data::equal(num(1), a, &cx));
    assert!(data::equal(num(1), num(1), &cx));
    assert!(!data::equal(num(1), num(2), &cx));
}

#[test]
fn equal_is_an_equivalence() {
    let mut cx = context();
    let mut values = Vec::new();
    for _ in 0..3 {
        let inner = cx.list(&vec![num(1), num(2)]).unwrap();
        let s = cx.string("x".to_string()).unwrap();
        values.push(cx.vector(vec![inner, s]).unwrap());
    }
    values.push(cx.list(&vec![num(1), num(2)]).unwrap());
    values.push(num(5));
    values.push(GcObj::nil_obj());
    for &a in &values {
        assert!(data::equal(a, a, &cx));
        for &b in &values {
            assert_eq!(data::equal(a, b, &cx), data::equal(b, a, &cx));
            if data::eq(a, b) {
                assert!(data::equal(a, b, &cx));
            }
            for &c in &values {
                if data::equal(a, b, &cx) && data::equal(b, c, &cx) {
                    assert!(data::equal(a, c, &cx));
                }
            }
        }
    }
    assert!(data::equal(values[0], values[1], &cx));
    assert!(!data::equal(values[0], values[3], &cx));
}

#[test]
fn equal_ends_on_circular_structure() {
    let mut cx = context();
    let x = cx.cons(num(1), GcObj::nil_obj()).unwrap();
    cx.setcdr(x.as_cons().unwrap(), x);
    let y = cx.cons(num(1), GcObj::nil_obj()).unwrap();
    cx.setcdr(y.as_cons().unwrap(), y);
    assert!(data::equal(x, x, &cx));
    assert!(!data::equal(x, y, &cx));
}

#[test]
fn functions_and_other_objects_are_equal_only_to_themselves() {
    let mut cx = context();
    let f = cx.lisp_fn(LispFn::new(CodeVec(vec![1]), vec![num(1)], no_args())).unwrap();
    let g = cx.lisp_fn(LispFn::new(CodeVec(vec![1]), vec![num(1)], no_args())).unwrap();
    assert!(data::equal(f, f, &cx));
    assert!(!data::equal(f, g, &cx));
    let s = cx.subr(BuiltIn::Eq, BuiltIn::Eq.fn_args(), "eq").unwrap();
    let t = cx.subr(BuiltIn::Eq, BuiltIn::Eq.fn_args(), "eq").unwrap();
    assert!(!data::equal(s, t, &cx));
    // descriptors themselves compare by the implementation that they name
    assert!(SubrFn::of(BuiltIn::Eq) == SubrFn::new(BuiltIn::Eq, no_args(), "other"));
    assert!(SubrFn::of(BuiltIn::Eq) != SubrFn::of(BuiltIn::Eql));
}

#[test]
fn logand_folds_onto_zero() {
    assert_eq!(data::logand(&[]), 0);
    assert_eq!(data::logand(&[7]), 0);
    assert_eq!(data::logand(&[-1, -1]), 0);
    assert_eq!(data::logand(&[0b1100, 0b1010]), 0);
}

#[test]
fn predicates_go_by_the_variant() {
    let mut cx = context();
    let nil = GcObj::nil_obj();
    let t = GcObj::t_obj();
    let i = num(1);
    let fl = cx.float(2.5f64.to_bits()).unwrap();
    let s = cx.string("s".to_string()).unwrap();
    let c = cx.cons(i, nil).unwrap();
    let v = cx.vector(vec![i]).unwrap();
    let f = cx.lisp_fn(LispFn::new(CodeVec(vec![]), vec![], no_args())).unwrap();
    let b = cx.subr(BuiltIn::Null, BuiltIn::Null.fn_args(), "null").unwrap();
    let all = [nil, t, i, fl, s, c, v, f, b];
    let expect = |p: fn(GcObj) -> bool, yes: &[GcObj]| {
        for o in all {
            assert_eq!(p(o), yes.contains(&o), "{:?}", o.get());
        }
    };
    expect(data::null, &[nil]);
    expect(data::listp, &[nil, c]);
    expect(data::nlistp, &[t, i, fl, s, v, f, b]);
    expect(data::consp, &[c]);
    expect(data::atom, &[nil, t, i, fl, s, v, f, b]);
    expect(data::symbolp, &[nil, t]);
    expect(data::stringp, &[s]);
    expect(data::numberp, &[i, fl]);
    expect(data::integerp, &[i]);
    expect(data::vectorp, &[v]);
    expect(data::functionp, &[f, b]);
    expect(data::subrp, &[b]);
    expect(data::markerp, &[]);
    expect(data::bufferp, &[]);
    expect(data::byte_code_function_p, &[]);
}

#[test]
fn a_keyword_is_a_symbol_with_a_colon() {
    let mut cx = context();
    let key = sym(cx.intern(":key"));
    let plain = sym(cx.intern("key"));
    let colon = sym(cx.intern(":"));
    let empty = sym(cx.intern(""));
    let inner = sym(cx.intern("a:b"));
    let string = cx.string(":key".to_string()).unwrap();
    assert!(data::keywordp(key, &cx));
    assert!(data::keywordp(colon, &cx));
    assert!(!data::keywordp(plain, &cx));
    assert!(!data::keywordp(empty, &cx));
    assert!(!data::keywordp(inner, &cx));
    assert!(!data::keywordp(string, &cx));
    assert!(!data::keywordp(num(1), &cx));
    assert!(!data::keywordp(GcObj::nil_obj(), &cx));
}

#[test]
fn fset_stores_functions_only() {
    let mut cx = context();
    let f = cx.intern("f");
    let g = cx.intern("g");
    let func = cx.lisp_fn(LispFn::new(CodeVec(vec![1]), vec![], no_args())).unwrap();
    assert!(!data::fboundp(f, &cx));
    assert_eq!(data::symbol_function(f, &cx), GcObj::nil_obj());
    assert_eq!(data::fset(f, func, &mut cx).unwrap(), f);
    assert!(data::fboundp(f, &cx));
    assert_eq!(data::symbol_function(f, &cx), func);
    // a symbol is a function too: an alias
    assert_eq!(data::defalias(g, sym(f), None, &mut cx).unwrap(), g);
    assert_eq!(data::symbol_function(g, &cx), sym(f));
    // anything else is refused, and nothing changes
    let r = data::fset(f, num(5), &mut cx);
    assert!(matches!(
        r,
        Err(Error::Type(TypeError { expected: Type::Func, found: Tag::Int }))
    ));
    assert_eq!(data::symbol_function(f, &cx), func);
    let list = cx.cons(num(1), GcObj::nil_obj()).unwrap();
    assert!(matches!(
        data::defalias(f, list, None, &mut cx),
        Err(Error::Type(TypeError { expected: Type::Func, found: Tag::Cons }))
    ));
    // nil empties the cell
    assert_eq!(data::fset(f, GcObj::nil_obj(), &mut cx).unwrap(), f);
    assert!(!data::fboundp(f, &cx));
    assert_eq!(data::fmakunbound(g, &mut cx), g);
    assert!(!data::fboundp(g, &cx));
    assert_eq!(data::symbol_function(g, &cx), GcObj::nil_obj());
}

#[test]
fn indirect_function_follows_aliases_to_the_end() {
    let mut cx = context();
    let f = cx.intern("f");
    let g = cx.intern("g");
    let h = cx.intern("h");
    let unbound = cx.intern("unbound");
    let func = cx.lisp_fn(LispFn::new(CodeVec(vec![42]), vec![], no_args())).unwrap();
    data::fset(g, sym(f), &mut cx).unwrap();
    data::defalias(f, func, None, &mut cx).unwrap();
    data::fset(h, sym(g), &mut cx).unwrap();
    assert_eq!(data::indirect_function(sym(g), &cx), func);
    assert_eq!(data::indirect_function(sym(h), &cx), func);
    assert_eq!(data::indirect_function(sym(f), &cx), func);
    assert_eq!(data::indirect_function(func, &cx), func);
    assert_eq!(data::indirect_function(num(3), &cx), num(3));
    assert_eq!(data::indirect_function(sym(unbound), &cx), GcObj::nil_obj());
    // a chain that ends in an unbound symbol names nothing
    data::fset(f, sym(unbound), &mut cx).unwrap();
    assert_eq!(data::indirect_function(sym(h), &cx), GcObj::nil_obj());
    // neither does a circle
    data::fset(unbound, sym(h), &mut cx).unwrap();
    assert_eq!(data::indirect_function(sym(h), &cx), GcObj::nil_obj());
    assert_eq!(cx.symbols.follow_indirect(h), None);
}

#[test]
fn variables_are_set_and_unset() {
    let mut cx = context();
    let x = cx.intern("x");
    let y = cx.intern("y");
    assert!(!data::boundp(x, &cx));
    assert!(!data::default_boundp(x, &cx));
    assert_eq!(data::symbol_value(x, &cx), None);
    assert_eq!(data::set(x, num(5), &mut cx).unwrap(), num(5));
    assert!(data::boundp(x, &cx));
    assert!(data::default_boundp(x, &cx));
    assert!(!data::boundp(y, &cx));
    assert_eq!(data::symbol_value(x, &cx), Some(num(5)));
    assert_eq!(data::set(x, num(6), &mut cx).unwrap(), num(6));
    assert_eq!(data::symbol_value(x, &cx), Some(num(6)));
    assert_eq!(data::makunbound(x, &mut cx), x);
    assert!(!data::boundp(x, &cx));
    assert_eq!(data::symbol_value(x, &cx), None);
    assert_eq!(data::make_variable_buffer_local(x), x);
}

#[test]
fn defvar_keeps_a_value_that_is_there() {
    let mut cx = context();
    let x = cx.intern("x");
    let y = cx.intern("y");
    assert_eq!(data::defvar(x, Some(num(1)), None, &mut cx).unwrap(), num(1));
    assert_eq!(data::symbol_value(x, &cx), Some(num(1)));
    assert_eq!(data::defvar(x, Some(num(2)), None, &mut cx).unwrap(), num(2));
    assert_eq!(data::symbol_value(x, &cx), Some(num(1)));
    let doc = "docs".to_string();
    assert_eq!(data::defvar(y, None, Some(&doc), &mut cx).unwrap(), GcObj::nil_obj());
    assert!(!data::boundp(y, &cx));
}

#[test]
fn properties_are_kept_by_symbol_and_name() {
    let mut cx = context();
    let s = cx.intern("s");
    let other = cx.intern("other");
    let p = cx.intern("p");
    let q = cx.intern("q");
    assert_eq!(data::get(s, p, &cx), GcObj::nil_obj());
    assert_eq!(data::put(s, p, num(1), &mut cx), num(1));
    assert_eq!(data::put(s, q, num(2), &mut cx), num(2));
    assert_eq!(data::get(s, p, &cx), num(1));
    assert_eq!(data::get(s, q, &cx), num(2));
    assert_eq!(data::get(other, p, &cx), GcObj::nil_obj());
    assert_eq!(data::put(s, p, num(3), &mut cx), num(3));
    assert_eq!(data::get(s, p, &cx), num(3));
    assert_eq!(data::get(s, q, &cx), num(2));
    assert_eq!(cx.env.props[&s.id], vec![(p, num(3)), (q, num(2))]);
}

#[test]
fn aref_takes_the_code_point_at_a_character_index() {
    let mut cx = context();
    let s = cx.string("héllo".to_string()).unwrap();
    assert_eq!(data::aref(s, 0, &cx).unwrap(), num('h' as i64));
    assert_eq!(data::aref(s, 1, &cx).unwrap(), num(233));
    assert_eq!(data::aref(s, 2, &cx).unwrap(), num('l' as i64));
    assert_eq!(data::aref(s, 4, &cx).unwrap(), num('o' as i64));
    // past the last character; the length is that in characters
    assert!(matches!(data::aref(s, 5, &cx), Err(Error::OutOfBounds { idx: 5, len: 5 })));
    assert!(matches!(data::aref(s, 6, &cx), Err(Error::OutOfBounds { idx: 6, len: 5 })));
    let wide = cx.string("a😀".to_string()).unwrap();
    assert_eq!(data::aref(wide, 1, &cx).unwrap(), num(0x1F600));
    assert!(matches!(data::aref(wide, 2, &cx), Err(Error::OutOfBounds { idx: 2, len: 2 })));
    let empty = cx.string(String::new()).unwrap();
    assert!(matches!(data::aref(empty, 0, &cx), Err(Error::OutOfBounds { idx: 0, len: 0 })));
}

#[test]
fn aref_and_aset_on_vectors() {
    let mut cx = context();
    let v = cx.vector(vec![num(10), num(20), num(30)]).unwrap();
    let r = v.as_vec().unwrap();
    assert_eq!(data::aref(v, 0, &cx).unwrap(), num(10));
    assert_eq!(data::aref(v, 2, &cx).unwrap(), num(30));
    assert!(matches!(data::aref(v, 3, &cx), Err(Error::OutOfBounds { idx: 3, len: 3 })));
    assert_eq!(data::aset(r, 1, num(21), &mut cx).unwrap(), num(21));
    assert_eq!(data::aref(v, 1, &cx).unwrap(), num(21));
    assert_eq!(data::aref(v, 0, &cx).unwrap(), num(10));
    assert!(matches!(
        data::aset(r, 3, num(0), &mut cx),
        Err(Error::OutOfBounds { idx: 3, len: 3 })
    ));
    assert_eq!(cx.block.vector(r).items, vec![num(10), num(21), num(30)]);
    assert_eq!(cx.block.vector(r).len(), 3);
    assert_eq!(cx.block.vector(r).get(5), None);
}

#[test]
fn aref_wants_an_array() {
    let mut cx = context();
    let c = cx.cons(num(1), num(2)).unwrap();
    assert!(matches!(
        data::aref(c, 0, &cx),
        Err(Error::Type(TypeError { expected: Type::Vec, found: Tag::Cons }))
    ));
    assert!(matches!(
        data::aref(num(1), 0, &cx),
        Err(Error::Type(TypeError { expected: Type::Vec, found: Tag::Int }))
    ));
    assert!(matches!(
        data::aref(GcObj::nil_obj(), 0, &cx),
        Err(Error::Type(TypeError { expected: Type::Vec, found: Tag::Symbol }))
    ));
}

#[test]
fn a_vector_that_is_read_cannot_be_written() {
    let mut cx = context();
    let v = cx.vector(vec![num(1), num(2)]).unwrap();
    let r = v.as_vec().unwrap();
    cx.vec_read(r, true);
    cx.vec_read(r, true);
    assert!(matches!(data::aset(r, 0, num(9), &mut cx), Err(Error::Borrowed)));
    assert!(matches!(data::aset(r, 7, num(9), &mut cx), Err(Error::Borrowed)));
    assert_eq!(data::aref(v, 0, &cx).unwrap(), num(1));
    cx.vec_read(r, false);
    assert!(matches!(data::aset(r, 0, num(9), &mut cx), Err(Error::Borrowed)));
    cx.vec_read(r, false);
    assert_eq!(data::aset(r, 0, num(9), &mut cx).unwrap(), num(9));
    assert_eq!(data::aref(v, 0, &cx).unwrap(), num(9));
    cx.vec_read(r, false);
    assert_eq!(cx.block.vector(r).readers, 0);
}

#[test]
fn features_are_provided_once_and_for_all() {
    let mut cx = context();
    let a = cx.intern("a");
    let b = cx.intern("b");
    assert!(!data::featurep(a, &cx));
    assert_eq!(data::provide(a, None, &mut cx), a);
    assert!(data::featurep(a, &cx));
    assert!(!data::featurep(b, &cx));
    assert_eq!(data::provide(a, None, &mut cx), a);
    assert!(data::featurep(a, &cx));
}

#[test]
fn lists_are_read_item_by_item() {
    let mut cx = context();
    let l = cx.list(&vec![num(1), num(2), num(3)]).unwrap();
    assert_eq!(cx.list_to_vec(l).unwrap(), vec![num(1), num(2), num(3)]);
    assert_eq!(cx.list_to_vec(GcObj::nil_obj()).unwrap(), vec![]);
    let empty = cx.list(&vec![]).unwrap();
    assert_eq!(empty, GcObj::nil_obj());
    assert!(matches!(
        cx.list_to_vec(num(5)),
        Err(Error::Type(TypeError { expected: Type::List, found: Tag::Int }))
    ));
    let dotted = cx.cons(num(1), num(2)).unwrap();
    assert!(matches!(
        cx.list_to_vec(dotted),
        Err(Error::Type(TypeError { expected: Type::List, found: Tag::Int }))
    ));
    let circle = cx.cons(num(1), GcObj::nil_obj()).unwrap();
    cx.setcdr(circle.as_cons().unwrap(), circle);
    assert!(matches!(cx.list_to_vec(circle), Err(Error::Circular)));
}

#[test]
fn equal_walks_long_lists() {
    let mut cx = context();
    let mut items = Vec::new();
    for i in 0..20000 {
        items.push(num(i));
    }
    // no collection while the two lists are built and compared
    cx.threshold = usize::MAX;
    let a = cx.list(&items).unwrap();
    let b = cx.list(&items).unwrap();
    assert!(data::equal(a, b, &cx));
    items[19999] = num(-1);
    let c = cx.list(&items).unwrap();
    assert!(!data::equal(a, c, &cx));
    assert_eq!(cx.list_to_vec(c).unwrap().len(), 20000);
}
