use rune::builtin::invoke;
use rune::data;
use rune::error::{Error, Type, TypeError};
use rune::eval::{apply, check_arity, funcall, Called, Outcome, MAX_CALL_CHAIN};
use rune::gc::context::Context;
use rune::gc::root::{RootSet, Rooted};
use rune::object::func::{BuiltIn, CodeVec, FnArgs, LispFn, SubrFn};
use rune::object::tagged::{Function, GcObj, Symbol, Tag};

fn num(i: i64) -> GcObj {
    GcObj::from_int(i).unwrap()
}

fn sym(s: Symbol) -> GcObj {
    GcObj::from_symbol(s)
}

/// A context in which every subroutine is the function of the symbol of
/// its name.
fn context() -> Context {
    let mut cx = Context::new(RootSet::default());
    for subr in [
        BuiltIn::Eq,
        BuiltIn::Equal,
        BuiltIn::Eql,
        BuiltIn::Logand,
        BuiltIn::SetValue,
        BuiltIn::Put,
        BuiltIn::Get,
        BuiltIn::Defvar,
        BuiltIn::MakeVariableBufferLocal,
        BuiltIn::Fset,
        BuiltIn::Aset,
        BuiltIn::Aref,
        BuiltIn::Defalias,
        BuiltIn::Provide,
        BuiltIn::SymbolFunction,
        BuiltIn::SymbolValue,
        BuiltIn::SymbolName,
        BuiltIn::Null,
        BuiltIn::Fmakunbound,
        BuiltIn::Fboundp,
        BuiltIn::Boundp,
        BuiltIn::Makunbound,
        BuiltIn::DefaultBoundp,
        BuiltIn::Listp,
        BuiltIn::Nlistp,
        BuiltIn::Stringp,
        BuiltIn::Symbolp,
        BuiltIn::Functionp,
        BuiltIn::Subrp,
        BuiltIn::Vectorp,
        BuiltIn::Numberp,
        BuiltIn::Markerp,
        BuiltIn::Consp,
        BuiltIn::Keywordp,
        BuiltIn::Integerp,
        BuiltIn::Atom,
        BuiltIn::ByteCodeFunctionP,
        BuiltIn::Bufferp,
        BuiltIn::IndirectFunction,
        BuiltIn::Apply,
        BuiltIn::Funcall,
    ] {
        let name = cx.intern(subr.name());
        let f = cx.subr(subr, subr.fn_args(), subr.name()).unwrap();
        data::fset(name, f, &mut cx).unwrap();
    }
    cx
}

fn named(cx: &mut Context, name: &str) -> Function {
    Function::Symbol(cx.intern(name))
}

fn value(r: Result<Called, Error>) -> GcObj {
    match r {
        Ok(Called::Value(v)) => v,
        other => panic!("no value: {:?}", other),
    }
}

fn call(cx: &mut Context, name: &str, args: &[GcObj]) -> Result<Called, Error> {
    let f = named(cx, name);
    funcall(f, args, cx)
}

fn arity(r: Result<Called, Error>) -> (usize, usize, String) {
    match r {
        Err(Error::Arg(e)) => (e.expected, e.actual, e.name),
        other => panic!("no arity error: {:?}", other),
    }
}

#[test]
fn arity_is_checked_before_anything_runs() {
    let spec = FnArgs { rest: false, required: 2, optional: 1, advice: false };
    assert_eq!(check_arity(spec, 2, "f").unwrap(), 1);
    assert_eq!(check_arity(spec, 3, "f").unwrap(), 0);
    assert!(matches!(check_arity(spec, 4, "f"), Err(Error::Arg(e)) if e.expected == 3 && e.actual == 4));
    assert!(matches!(check_arity(spec, 1, "f"), Err(Error::Arg(e)) if e.expected == 2 && e.actual == 1));
    let rest = FnArgs { rest: true, required: 0, optional: 0, advice: false };
    assert_eq!(check_arity(rest, 65535, "f").unwrap(), 0);
    // with `&rest` there is no number of arguments that is too large
    assert_eq!(check_arity(rest, 65536, "f").unwrap(), 0);
    assert_eq!(check_arity(rest, usize::MAX, "f").unwrap(), 0);
    let none = FnArgs { rest: false, required: 0, optional: 0, advice: false };
    assert!(matches!(
        check_arity(none, 65536, "f"),
        Err(Error::Arg(e)) if e.expected == 0 && e.actual == 65536 && e.name == "f"
    ));
    let wide = FnArgs { rest: false, required: u16::MAX, optional: u16::MAX, advice: false };
    assert_eq!(check_arity(wide, 65535, "f").unwrap(), u16::MAX);
    assert_eq!(check_arity(wide, 131070, "f").unwrap(), 0);
    assert!(matches!(
        check_arity(wide, 131071, "f"),
        Err(Error::Arg(e)) if e.expected == 131070 && e.actual == 131071
    ));
}

#[test]
fn a_call_may_carry_any_number_of_arguments() {
    let mut cx = context();
    let args = vec![num(1); 70000];
    assert_eq!(value(call(&mut cx, "logand", &args)), num(0));
    assert_eq!(cx.roots.len(), 0);
}

#[test]
fn a_call_that_fails_leaves_its_arguments() {
    let mut cx = context();
    let given = vec![num(1), num(2), num(3), num(4)];
    let args = cx.root(Rooted::Objs(given.clone()));
    let f = SubrFn::new(
        BuiltIn::Eq,
        FnArgs { rest: false, required: 2, optional: 1, advice: false },
        "f",
    );
    let r = f.call(args, &mut cx);
    assert!(matches!(r, Err(Error::Arg(e)) if e.expected == 3 && e.actual == 4 && e.name == "f"));
    assert_eq!(cx.bind_vec(args), &given);
    // too few: nothing is padded
    cx.set_root(args, Rooted::Objs(vec![num(1)]));
    let r = f.call(args, &mut cx);
    assert!(matches!(r, Err(Error::Arg(e)) if e.expected == 2 && e.actual == 1 && e.name == "f"));
    assert_eq!(cx.bind_vec(args), &vec![num(1)]);
    // a void function, and a byte-compiled one with the wrong arity
    let nothing = cx.intern("nothing");
    cx.set_root(args, Rooted::Objs(given.clone()));
    let r = Function::Symbol(nothing).call(args, &mut cx);
    assert!(matches!(r, Err(Error::VoidFunction { sym }) if sym == nothing));
    assert_eq!(cx.bind_vec(args), &given);
    let lambda = cx
        .lisp_fn(LispFn::new(
            CodeVec(vec![]),
            vec![],
            FnArgs { rest: false, required: 0, optional: 1, advice: false },
        ))
        .unwrap();
    let r = lambda.as_function().unwrap().call(args, &mut cx);
    assert!(matches!(r, Err(Error::Arg(e)) if e.expected == 1 && e.actual == 4 && e.name == "lambda"));
    assert_eq!(cx.bind_vec(args), &given);
    // further down a chain, the slot holds what the failing callee was given
    let funcall_sym = sym(cx.intern("funcall"));
    let eq = sym(cx.intern("eq"));
    cx.set_root(args, Rooted::Objs(vec![funcall_sym, eq, num(1)]));
    let r = SubrFn::of(BuiltIn::Funcall).call(args, &mut cx);
    assert!(matches!(r, Err(Error::Arg(e)) if e.expected == 2 && e.actual == 1 && e.name == "eq"));
    assert_eq!(cx.bind_vec(args), &vec![num(1)]);
    cx.unroot(args);
}

#[test]
fn a_subroutine_is_called_on_padded_arguments() {
    let mut cx = context();
    let x = cx.intern("x");
    let args = cx.root(Rooted::Objs(vec![sym(x)]));
    // defvar takes one required and two optional arguments
    let r = SubrFn::of(BuiltIn::Defvar).call(args, &mut cx);
    assert!(matches!(r, Ok(Outcome::Value(v)) if v == GcObj::nil_obj()));
    assert_eq!(cx.bind_vec(args), &vec![sym(x), GcObj::nil_obj(), GcObj::nil_obj()]);
    assert!(!data::boundp(x, &cx));
    cx.set_root(args, Rooted::Objs(vec![sym(x), num(4)]));
    let r = SubrFn::of(BuiltIn::Defvar).call(args, &mut cx);
    assert!(matches!(r, Ok(Outcome::Value(v)) if v == num(4)));
    assert_eq!(cx.bind_vec(args), &vec![sym(x), num(4), GcObj::nil_obj()]);
    assert_eq!(data::symbol_value(x, &cx), Some(num(4)));
    // too few and too many
    cx.set_root(args, Rooted::Objs(vec![]));
    let r = SubrFn::of(BuiltIn::Defvar).call(args, &mut cx);
    assert!(matches!(r, Err(Error::Arg(e)) if e.expected == 1 && e.actual == 0 && e.name == "defvar"));
    assert_eq!(cx.bind_vec(args), &Vec::<GcObj>::new());
    cx.set_root(args, Rooted::Objs(vec![sym(x), num(1), num(2), num(3)]));
    let r = SubrFn::of(BuiltIn::Defvar).call(args, &mut cx);
    assert!(matches!(r, Err(Error::Arg(e)) if e.expected == 3 && e.actual == 4 && e.name == "defvar"));
    assert_eq!(cx.bind_vec(args).len(), 4);
    cx.unroot(args);
}

#[test]
fn a_call_with_too_many_arguments_is_refused() {
    let mut cx = context();
    let f = cx
        .lisp_fn(LispFn::new(
            CodeVec(vec![]),
            vec![],
            FnArgs { rest: false, required: 2, optional: 1, advice: false },
        ))
        .unwrap();
    let r = funcall(f.as_function().unwrap(), &[num(1), num(2), num(3), num(4)], &mut cx);
    assert_eq!(arity(r), (3, 4, "lambda".to_string()));
    let r = funcall(f.as_function().unwrap(), &[num(1)], &mut cx);
    assert_eq!(arity(r), (2, 1, "lambda".to_string()));
    assert_eq!(cx.roots.len(), 0);
}

#[test]
fn a_byte_compiled_callee_is_handed_back_with_its_arguments() {
    let mut cx = context();
    let f = cx
        .lisp_fn(LispFn::new(
            CodeVec(vec![7]),
            vec![],
            FnArgs { rest: false, required: 1, optional: 2, advice: false },
        ))
        .unwrap();
    let r = funcall(f.as_function().unwrap(), &[num(1), num(2)], &mut cx);
    match r {
        Ok(Called::Interpret { func, args }) => {
            assert_eq!(func, f.as_function().unwrap().into_obj().get().target_ref().unwrap());
            assert_eq!(args, vec![num(1), num(2), GcObj::nil_obj()]);
        },
        other => panic!("not handed back: {:?}", other),
    }
    assert_eq!(cx.roots.len(), 0);
}

#[test]
fn funcall_goes_through_aliases() {
    let mut cx = context();
    let f = cx.intern("f");
    let g = cx.intern("g");
    let lambda = cx
        .lisp_fn(LispFn::new(
            CodeVec(vec![42]),
            vec![num(42)],
            FnArgs { rest: false, required: 0, optional: 0, advice: false },
        ))
        .unwrap();
    data::fset(g, sym(f), &mut cx).unwrap();
    data::defalias(f, lambda, None, &mut cx).unwrap();
    match funcall(Function::Symbol(g), &[], &mut cx) {
        Ok(Called::Interpret { func, args }) => {
            assert_eq!(func, lambda.get().target_ref().unwrap());
            assert!(args.is_empty());
            assert_eq!(cx.block.lisp_fn(func).body.constants(), &vec![num(42)]);
        },
        other => panic!("not handed back: {:?}", other),
    }
    // the same through a subroutine
    let null = cx.intern("null");
    data::defalias(f, sym(null), None, &mut cx).unwrap();
    assert_eq!(value(funcall(Function::Symbol(g), &[GcObj::nil_obj()], &mut cx)), GcObj::t_obj());
    assert_eq!(value(funcall(Function::Symbol(g), &[num(1)], &mut cx)), GcObj::nil_obj());
}

#[test]
fn a_symbol_without_a_function_is_void() {
    let mut cx = context();
    let nothing = cx.intern("nothing");
    let alias = cx.intern("alias");
    data::fset(alias, sym(nothing), &mut cx).unwrap();
    assert!(matches!(
        funcall(Function::Symbol(nothing), &[], &mut cx),
        Err(Error::VoidFunction { sym }) if sym == nothing
    ));
    assert!(matches!(
        funcall(Function::Symbol(alias), &[num(1)], &mut cx),
        Err(Error::VoidFunction { sym }) if sym == alias
    ));
    assert!(matches!(
        apply(Function::Symbol(nothing), &[GcObj::nil_obj()], &mut cx),
        Err(Error::VoidFunction { sym }) if sym == nothing
    ));
    assert_eq!(cx.roots.len(), 0);
}

#[test]
fn apply_spreads_the_last_argument() {
    let mut cx = context();
    let a = cx.cons(num(1), num(2)).unwrap();
    let last = cx.list(&vec![a]).unwrap();
    let eq = named(&mut cx, "eq");
    assert_eq!(value(apply(eq, &[a, last], &mut cx)), GcObj::t_obj());
    let both = cx.list(&vec![a, a]).unwrap();
    assert_eq!(value(apply(eq, &[both], &mut cx)), GcObj::t_obj());
    let other = cx.list(&vec![num(1)]).unwrap();
    assert_eq!(value(apply(eq, &[a, other], &mut cx)), GcObj::nil_obj());
    // nothing to spread
    let logand = named(&mut cx, "logand");
    assert_eq!(value(apply(logand, &[], &mut cx)), num(0));
    assert_eq!(value(apply(logand, &[GcObj::nil_obj()], &mut cx)), num(0));
    let ints = cx.list(&vec![num(3), num(5)]).unwrap();
    assert_eq!(value(apply(logand, &[num(7), ints], &mut cx)), num(0));
    // the number of arguments is that after spreading
    let three = cx.list(&vec![a, a, a]).unwrap();
    assert_eq!(arity(apply(eq, &[three], &mut cx)), (2, 3, "eq".to_string()));
    assert_eq!(arity(apply(eq, &[a, GcObj::nil_obj()], &mut cx)), (2, 1, "eq".to_string()));
    assert_eq!(cx.roots.len(), 0);
}

#[test]
fn apply_wants_a_list_at_the_end() {
    let mut cx = context();
    let eq = named(&mut cx, "eq");
    assert!(matches!(
        apply(eq, &[num(1), num(2)], &mut cx),
        Err(Error::Type(TypeError { expected: Type::List, found: Tag::Int }))
    ));
    let dotted = cx.cons(num(1), num(2)).unwrap();
    assert!(matches!(
        apply(eq, &[dotted], &mut cx),
        Err(Error::Type(TypeError { expected: Type::List, found: Tag::Int }))
    ));
    let circle = cx.cons(num(1), GcObj::nil_obj()).unwrap();
    cx.setcdr(circle.as_cons().unwrap(), circle);
    assert!(matches!(apply(eq, &[circle], &mut cx), Err(Error::Circular)));
    assert_eq!(cx.roots.len(), 0);
}

#[test]
fn apply_and_funcall_are_subroutines_themselves() {
    let mut cx = context();
    let eq = sym(cx.intern("eq"));
    let funcall_sym = sym(cx.intern("funcall"));
    let apply_sym = sym(cx.intern("apply"));
    // (funcall 'funcall 'eq 1 1)
    assert_eq!(value(call(&mut cx, "funcall", &[funcall_sym, eq, num(1), num(1)])), GcObj::t_obj());
    // (apply 'funcall 'eq '(1 2))
    let args = cx.list(&vec![num(1), num(2)]).unwrap();
    assert_eq!(value(call(&mut cx, "apply", &[funcall_sym, eq, args])), GcObj::nil_obj());
    // (funcall 'apply 'apply 'eq '((3 3)))
    let inner = cx.list(&vec![num(3), num(3)]).unwrap();
    let outer = cx.list(&vec![inner]).unwrap();
    assert_eq!(value(call(&mut cx, "funcall", &[apply_sym, apply_sym, eq, outer])), GcObj::t_obj());
    // the callee has to be a function
    assert!(matches!(
        call(&mut cx, "funcall", &[num(1), num(2)]),
        Err(Error::Type(TypeError { expected: Type::Func, found: Tag::Int }))
    ));
    assert_eq!(arity(call(&mut cx, "funcall", &[])), (1, 0, "funcall".to_string()));
    assert!(matches!(
        call(&mut cx, "apply", &[eq, num(1)]),
        Err(Error::Type(TypeError { expected: Type::List, found: Tag::Int }))
    ));
}

#[test]
fn a_chain_of_calls_that_is_too_long_is_cut() {
    let mut cx = context();
    let funcall_sym = sym(cx.intern("funcall"));
    let null = sym(cx.intern("null"));
    let chain = |n: usize| {
        let mut args = vec![funcall_sym; n];
        args.push(null);
        args.push(GcObj::nil_obj());
        args
    };
    let f = named(&mut cx, "funcall");
    assert_eq!(value(funcall(f, &chain(MAX_CALL_CHAIN - 1), &mut cx)), GcObj::t_obj());
    match funcall(f, &chain(MAX_CALL_CHAIN), &mut cx) {
        Err(Error::Misc { message }) => assert_eq!(message, "call chain too long"),
        other => panic!("not cut: {:?}", other),
    }
    // a callee that applies itself to itself without end
    let apply_sym = sym(cx.intern("apply"));
    let tail = cx.cons(GcObj::nil_obj(), GcObj::nil_obj()).unwrap();
    let list = cx.cons(apply_sym, tail).unwrap();
    cx.setcar(tail.as_cons().unwrap(), list);
    let f = named(&mut cx, "apply");
    assert!(matches!(funcall(f, &[apply_sym, list], &mut cx), Err(Error::Misc { .. })));
    assert_eq!(cx.roots.len(), 0);
}

#[test]
fn subroutines_convert_their_arguments_in_order() {
    let mut cx = context();
    let x = sym(cx.intern("x"));
    let p = sym(cx.intern("p"));
    assert_eq!(value(call(&mut cx, "set", &[x, num(5)])), num(5));
    assert_eq!(value(call(&mut cx, "symbol-value", &[x])), num(5));
    assert_eq!(value(call(&mut cx, "boundp", &[x])), GcObj::t_obj());
    assert_eq!(value(call(&mut cx, "default-boundp", &[p])), GcObj::nil_obj());
    assert_eq!(value(call(&mut cx, "makunbound", &[x])), x);
    assert_eq!(value(call(&mut cx, "symbol-value", &[x])), GcObj::nil_obj());
    assert!(matches!(
        call(&mut cx, "set", &[num(1), num(5)]),
        Err(Error::Type(TypeError { expected: Type::Symbol, found: Tag::Int }))
    ));
    assert_eq!(value(call(&mut cx, "put", &[x, p, num(7)])), num(7));
    assert_eq!(value(call(&mut cx, "get", &[x, p])), num(7));
    assert_eq!(value(call(&mut cx, "get", &[p, x])), GcObj::nil_obj());
    assert!(matches!(
        call(&mut cx, "put", &[x, num(1), num(7)]),
        Err(Error::Type(TypeError { expected: Type::Symbol, found: Tag::Int }))
    ));
    let s = cx.string("s".to_string()).unwrap();
    assert!(matches!(
        call(&mut cx, "get", &[s, num(1)]),
        Err(Error::Type(TypeError { expected: Type::Symbol, found: Tag::String }))
    ));
    assert_eq!(value(call(&mut cx, "make-variable-buffer-local", &[x])), x);
    assert_eq!(value(call(&mut cx, "provide", &[x])), x);
    assert!(data::featurep(x.as_symbol().unwrap(), &cx));
    assert!(matches!(
        call(&mut cx, "provide", &[p, num(1)]),
        Err(Error::Type(TypeError { expected: Type::Cons, found: Tag::Int }))
    ));
    assert!(!data::featurep(p.as_symbol().unwrap(), &cx));
    assert_eq!(value(call(&mut cx, "logand", &[num(1), num(3)])), num(0));
    assert!(matches!(
        call(&mut cx, "logand", &[num(1), x, s]),
        Err(Error::Type(TypeError { expected: Type::Int, found: Tag::Symbol }))
    ));
}

#[test]
fn subroutines_on_functions_and_arrays() {
    let mut cx = context();
    let f = sym(cx.intern("f"));
    let g = sym(cx.intern("g"));
    let null = sym(cx.intern("null"));
    let doc = cx.string("doc".to_string()).unwrap();
    assert_eq!(value(call(&mut cx, "fboundp", &[f])), GcObj::nil_obj());
    assert_eq!(value(call(&mut cx, "defalias", &[f, null, doc])), f);
    assert_eq!(value(call(&mut cx, "fset", &[g, f])), g);
    assert_eq!(value(call(&mut cx, "fboundp", &[g])), GcObj::t_obj());
    assert_eq!(value(call(&mut cx, "symbol-function", &[g])), f);
    let subr = data::symbol_function(null.as_symbol().unwrap(), &cx);
    assert_eq!(value(call(&mut cx, "indirect-function", &[g])), subr);
    assert_eq!(value(call(&mut cx, "subrp", &[subr])), GcObj::t_obj());
    assert_eq!(value(call(&mut cx, "functionp", &[g])), GcObj::nil_obj());
    assert!(matches!(
        call(&mut cx, "defalias", &[f, null, num(1)]),
        Err(Error::Type(TypeError { expected: Type::String, found: Tag::Int }))
    ));
    assert!(matches!(
        call(&mut cx, "fset", &[f, num(1)]),
        Err(Error::Type(TypeError { expected: Type::Func, found: Tag::Int }))
    ));
    assert_eq!(value(call(&mut cx, "fmakunbound", &[g])), g);
    assert_eq!(value(call(&mut cx, "fboundp", &[g])), GcObj::nil_obj());
    let v = cx.vector(vec![num(1), num(2)]).unwrap();
    let root = cx.root(Rooted::Obj(v));
    assert_eq!(value(call(&mut cx, "aref", &[v, num(1)])), num(2));
    assert_eq!(value(call(&mut cx, "aset", &[v, num(1), num(9)])), num(9));
    assert_eq!(value(call(&mut cx, "aref", &[v, num(1)])), num(9));
    assert!(matches!(
        call(&mut cx, "aref", &[v, num(2)]),
        Err(Error::OutOfBounds { idx: 2, len: 2 })
    ));
    assert!(matches!(
        call(&mut cx, "aset", &[v, num(-1), num(9)]),
        Err(Error::Type(TypeError { expected: Type::Natural, found: Tag::Int }))
    ));
    assert!(matches!(
        call(&mut cx, "aref", &[v, f]),
        Err(Error::Type(TypeError { expected: Type::Int, found: Tag::Symbol }))
    ));
    assert!(matches!(
        call(&mut cx, "aset", &[doc, num(0), num(9)]),
        Err(Error::Type(TypeError { expected: Type::Vec, found: Tag::String }))
    ));
    let text = cx.string("héllo".to_string()).unwrap();
    assert_eq!(value(call(&mut cx, "aref", &[text, num(1)])), num(233));
    cx.unroot(root);
}

#[test]
fn symbol_name_allocates_a_string() {
    let mut cx = context();
    let x = sym(cx.intern("some-name"));
    let live = cx.len();
    let name = value(call(&mut cx, "symbol-name", &[x]));
    assert_eq!(name.tag(), Tag::String);
    assert_eq!(cx.block.string(name.as_string().unwrap()).text, "some-name");
    assert_eq!(cx.len(), live + 1);
    assert_eq!(value(call(&mut cx, "stringp", &[name])), GcObj::t_obj());
    assert_eq!(value(call(&mut cx, "keywordp", &[x])), GcObj::nil_obj());
    let key = sym(cx.intern(":k"));
    assert_eq!(value(call(&mut cx, "keywordp", &[key])), GcObj::t_obj());
}

#[test]
fn a_subroutine_is_invoked_on_the_arguments_in_a_root_slot() {
    let mut cx = context();
    let a = cx.list(&vec![num(1), num(2)]).unwrap();
    let b = cx.list(&vec![num(1), num(2)]).unwrap();
    let args = cx.root(Rooted::Objs(vec![a, b]));
    assert_eq!(invoke(BuiltIn::Eq, args, &mut cx).unwrap(), GcObj::nil_obj());
    assert_eq!(invoke(BuiltIn::Eql, args, &mut cx).unwrap(), GcObj::nil_obj());
    assert_eq!(invoke(BuiltIn::Equal, args, &mut cx).unwrap(), GcObj::t_obj());
    assert_eq!(invoke(BuiltIn::Consp, args, &mut cx).unwrap(), GcObj::t_obj());
    assert_eq!(invoke(BuiltIn::Listp, args, &mut cx).unwrap(), GcObj::t_obj());
    assert_eq!(invoke(BuiltIn::Atom, args, &mut cx).unwrap(), GcObj::nil_obj());
    assert_eq!(invoke(BuiltIn::Null, args, &mut cx).unwrap(), GcObj::nil_obj());
    assert_eq!(cx.bind_vec(args), &vec![a, b]);
    cx.unroot(args);
}
